//! The execution engine: a program, an instruction pointer, an operand
//! stack, and three comparison flags.
//!
//! Arithmetic on two integer operands and every comparison are computed
//! here.  Arithmetic on two float operands needs floating-point hardware,
//! so [`Machine::step`] hands such an operation out as a [`FloatRequest`]
//! instead of a result; the caller computes the IEEE 754 result of
//! `lhs op rhs` on the two bit patterns and hands it back through
//! [`Machine::supply_float`], upon which the machine completes the
//! instruction.
use crate::floatbits::{float_eq, float_eq_bits, float_gt, float_gt_bits, float_lt, float_lt_bits, is_nan_bits, lemma_float_trichotomy};
use crate::{Data, Instruction, Program, RuntimeFault};
use vstd::prelude::*;

verus! {

/// The three arithmetic instruction kinds.
#[allow(non_camel_case_types)]
#[derive(Copy, Clone, Debug, PartialEq, Eq, Structural)]
pub enum ArithOp {
    PLUS,
    MINUS,
    MULT,
}

/// A float operation the machine cannot compute itself: the IEEE 754
/// binary32 result of `lhs op rhs`, both given as bit patterns, is owed.
/// `lhs` is the earlier-pushed operand (second from the top of the stack),
/// `rhs` the top of the stack.
#[derive(Copy, Clone, Debug, PartialEq, Eq, Structural)]
pub struct FloatRequest {
    pub op: ArithOp,
    pub lhs: u32,
    pub rhs: u32,
}

/// What stopped a bounded run: the normal halt, a float operation owed to
/// the caller, or an exhausted step budget with the machine still running.
#[derive(Copy, Clone, Debug, PartialEq, Eq, Structural)]
pub enum RunOutcome {
    Halted,
    NeedFloat(FloatRequest),
    OutOfFuel,
}

/// The mathematical state of a machine.
pub ghost struct MachineState {
    pub prog: Seq<Instruction>,
    pub ip: nat,
    pub stack: Seq<Data>,
    pub greater: bool,
    pub equal: bool,
    pub less: bool,
}

/// Integer arithmetic of the machine: two's-complement wrapping on `u32`.
pub open spec fn arith_num(op: ArithOp, b: u32, a: u32) -> u32 {
    match op {
        ArithOp::PLUS => vstd::wrapping::u32_specs::wrapping_add(b, a),
        ArithOp::MINUS => vstd::wrapping::u32_specs::wrapping_sub(b, a),
        ArithOp::MULT => vstd::wrapping::u32_specs::wrapping_mul(b, a),
    }
}

/// The arithmetic kind of an instruction, if it has one.
pub open spec fn arith_of(inst: Instruction) -> Option<ArithOp> {
    match inst {
        Instruction::PLUS => Some(ArithOp::PLUS),
        Instruction::MINUS => Some(ArithOp::MINUS),
        Instruction::MULT => Some(ArithOp::MULT),
        _ => None,
    }
}

/// The effect of an arithmetic instruction `op` on state `pre`: pop the top
/// value `a`, pop the new top `b`, and push `b op a`.  With fewer than two
/// values the pops that succeed still happen before the underflow fault;
/// with mismatched variants both pops happen before the mismatch fault.
/// With two float operands nothing changes and the result is requested.
pub open spec fn arith_step(pre: MachineState, op: ArithOp) -> (MachineState, Result<
    Option<FloatRequest>,
    RuntimeFault,
>) {
    if pre.stack.len() == 0 {
        (pre, Err(RuntimeFault::StackUnderflow))
    } else if pre.stack.len() == 1 {
        (MachineState { stack: pre.stack.drop_last(), ..pre }, Err(RuntimeFault::StackUnderflow))
    } else {
        let a = pre.stack[pre.stack.len() - 1];
        let b = pre.stack[pre.stack.len() - 2];
        let popped = pre.stack.take(pre.stack.len() - 2);
        match (b, a) {
            (Data::NUMBER(bv), Data::NUMBER(av)) => (
                MachineState {
                    stack: popped.push(Data::NUMBER(arith_num(op, bv, av))),
                    ip: pre.ip + 1,
                    ..pre
                },
                Ok(None),
            ),
            (Data::FLOAT(bf), Data::FLOAT(af)) => (
                pre,
                Ok(Some(FloatRequest { op, lhs: bf, rhs: af })),
            ),
            _ => (MachineState { stack: popped, ..pre }, Err(RuntimeFault::TypeMismatch)),
        }
    }
}

/// The effect of the compare instruction on state `pre`: peek (not pop) the
/// top value `a` and the second value `b`, and set the three flags to
/// `b > a`, `b == a`, `b < a` — IEEE comparison for two floats, so a NaN
/// operand leaves all three false.  The stack never changes; the state is
/// untouched on underflow or mismatch.
pub open spec fn cmp_step(pre: MachineState) -> (MachineState, Result<
    Option<FloatRequest>,
    RuntimeFault,
>) {
    if pre.stack.len() < 2 {
        (pre, Err(RuntimeFault::StackUnderflow))
    } else {
        let a = pre.stack[pre.stack.len() - 1];
        let b = pre.stack[pre.stack.len() - 2];
        match (b, a) {
            (Data::NUMBER(bv), Data::NUMBER(av)) => (
                MachineState {
                    greater: bv > av,
                    equal: bv == av,
                    less: bv < av,
                    ip: pre.ip + 1,
                    ..pre
                },
                Ok(None),
            ),
            (Data::FLOAT(bf), Data::FLOAT(af)) => (
                MachineState {
                    greater: float_gt_bits(bf, af),
                    equal: float_eq_bits(bf, af),
                    less: float_lt_bits(bf, af),
                    ip: pre.ip + 1,
                    ..pre
                },
                Ok(None),
            ),
            _ => (pre, Err(RuntimeFault::TypeMismatch)),
        }
    }
}

/// After a compare of two compatible values that are not NaN, exactly one
/// of the three flags holds; a NaN operand leaves all three false.
pub proof fn lemma_cmp_flags(pre: MachineState)
    requires
        pre.stack.len() >= 2,
    ensures
        ({
            let a = pre.stack[pre.stack.len() - 1];
            let b = pre.stack[pre.stack.len() - 2];
            let post = cmp_step(pre).0;
            let one = (post.greater || post.equal || post.less) && !(post.greater && post.equal)
                && !(post.greater && post.less) && !(post.equal && post.less);
            &&& (a is NUMBER && b is NUMBER ==> one)
            &&& (a matches Data::FLOAT(af) ==> b matches Data::FLOAT(bf) ==> (if !is_nan_bits(
                af,
            ) && !is_nan_bits(bf) {
                one
            } else {
                !post.greater && !post.equal && !post.less
            }))
        }),
{
    let a = pre.stack[pre.stack.len() - 1];
    let b = pre.stack[pre.stack.len() - 2];
    match (b, a) {
        (Data::FLOAT(bf), Data::FLOAT(af)) => {
            lemma_float_trichotomy(bf, af);
        },
        _ => {},
    }
}

/// The effect of executing the instruction at the pointer of state `pre`.
/// Jumps set the pointer to the raw target; every other instruction
/// advances it by one.  A conditional jump not taken advances by one.
pub open spec fn step_spec(pre: MachineState) -> (MachineState, Result<
    Option<FloatRequest>,
    RuntimeFault,
>)
    recommends
        pre.ip < pre.prog.len(),
{
    match pre.prog[pre.ip as int] {
        Instruction::NOP => (MachineState { ip: pre.ip + 1, ..pre }, Ok(None)),
        Instruction::PUSH(d) => (
            MachineState { stack: pre.stack.push(d), ip: pre.ip + 1, ..pre },
            Ok(None),
        ),
        Instruction::PLUS => arith_step(pre, ArithOp::PLUS),
        Instruction::MINUS => arith_step(pre, ArithOp::MINUS),
        Instruction::MULT => arith_step(pre, ArithOp::MULT),
        Instruction::JUMP(n) => (MachineState { ip: n as nat, ..pre }, Ok(None)),
        Instruction::CMP => cmp_step(pre),
        Instruction::JE(n) => (
            MachineState { ip: if pre.equal { n as nat } else { pre.ip + 1 }, ..pre },
            Ok(None),
        ),
        Instruction::JNE(n) => (
            MachineState { ip: if !pre.equal { n as nat } else { pre.ip + 1 }, ..pre },
            Ok(None),
        ),
        Instruction::JG(n) => (
            MachineState { ip: if pre.greater { n as nat } else { pre.ip + 1 }, ..pre },
            Ok(None),
        ),
        Instruction::JGE(n) => (
            MachineState { ip: if !pre.less { n as nat } else { pre.ip + 1 }, ..pre },
            Ok(None),
        ),
        Instruction::JL(n) => (
            MachineState { ip: if pre.less { n as nat } else { pre.ip + 1 }, ..pre },
            Ok(None),
        ),
        Instruction::JLE(n) => (
            MachineState { ip: if !pre.greater { n as nat } else { pre.ip + 1 }, ..pre },
            Ok(None),
        ),
    }
}

/// The effect of running state `s` under a step budget `fuel`: the normal
/// halt exactly at the program's length; the invalid-target fault strictly
/// beyond it, detected at the fetch; an exhausted budget while still
/// running; and otherwise one [`step_spec`] step, stopping at a fault or a
/// float request and recursing on a completed instruction.
pub open spec fn run_spec(s: MachineState, fuel: nat) -> (MachineState, Result<
    RunOutcome,
    RuntimeFault,
>)
    decreases fuel,
{
    if s.ip == s.prog.len() {
        (s, Ok(RunOutcome::Halted))
    } else if s.ip > s.prog.len() {
        (s, Err(RuntimeFault::InvalidJumpTarget))
    } else if fuel == 0 {
        (s, Ok(RunOutcome::OutOfFuel))
    } else {
        let stepped = step_spec(s);
        match stepped.1 {
            Ok(None) => run_spec(stepped.0, (fuel - 1) as nat),
            Ok(Some(req)) => (stepped.0, Ok(RunOutcome::NeedFloat(req))),
            Err(f) => (stepped.0, Err(f)),
        }
    }
}

/// Whether an instruction is one of the seven jumps.
pub open spec fn is_jump(i: Instruction) -> bool {
    match i {
        Instruction::JUMP(_) => true,
        Instruction::JE(_) => true,
        Instruction::JNE(_) => true,
        Instruction::JG(_) => true,
        Instruction::JGE(_) => true,
        Instruction::JL(_) => true,
        Instruction::JLE(_) => true,
        _ => false,
    }
}

/// A program without jumps never exhausts a budget of at least the
/// distance to the end: every completed instruction advances the pointer
/// by exactly one, so the run halts, faults, or requests a float within
/// that many steps.  Unbounded running needs a backward jump.
pub proof fn lemma_straight_line_fuel(s: MachineState, fuel: nat)
    requires
        s.ip <= s.prog.len(),
        fuel >= s.prog.len() - s.ip,
        forall|k: int| 0 <= k < s.prog.len() ==> !is_jump(#[trigger] s.prog[k]),
    ensures
        run_spec(s, fuel).1 != Ok::<RunOutcome, RuntimeFault>(RunOutcome::OutOfFuel),
    decreases s.prog.len() - s.ip,
{
    if s.ip < s.prog.len() {
        let stepped = step_spec(s);
        match stepped.1 {
            Ok(None) => {
                assert(!is_jump(s.prog[s.ip as int]));
                assert(stepped.0.ip == s.ip + 1 && stepped.0.prog == s.prog);
                lemma_straight_line_fuel(stepped.0, (fuel - 1) as nat);
            },
            _ => {},
        }
    }
}

/// Arithmetic across the two different value variants is the mismatch
/// fault, after both operands are popped.
pub proof fn lemma_arith_type_mismatch(pre: MachineState, op: ArithOp)
    requires
        pre.stack.len() >= 2,
        (pre.stack[pre.stack.len() - 1] is NUMBER) != (pre.stack[pre.stack.len() - 2] is NUMBER),
    ensures
        arith_step(pre, op) == (
            MachineState { stack: pre.stack.take(pre.stack.len() - 2), ..pre },
            Err::<Option<FloatRequest>, RuntimeFault>(RuntimeFault::TypeMismatch),
        ),
{
}

/// Comparing the two different value variants is the mismatch fault; the
/// stack and the flags are untouched.
pub proof fn lemma_cmp_type_mismatch(pre: MachineState)
    requires
        pre.stack.len() >= 2,
        (pre.stack[pre.stack.len() - 1] is NUMBER) != (pre.stack[pre.stack.len() - 2] is NUMBER),
    ensures
        cmp_step(pre) == (pre, Err::<Option<FloatRequest>, RuntimeFault>(RuntimeFault::TypeMismatch)),
{
}

/// The float operation state `m` is waiting for, if any: its pointer sits
/// on an arithmetic instruction whose two topmost operands are floats.
pub open spec fn float_request_of(m: MachineState) -> Option<FloatRequest> {
    if m.ip < m.prog.len() && arith_of(m.prog[m.ip as int]) is Some && m.stack.len() >= 2
        && m.stack[m.stack.len() - 1] is FLOAT && m.stack[m.stack.len() - 2] is FLOAT {
        Some(
            FloatRequest {
                op: arith_of(m.prog[m.ip as int]).unwrap(),
                lhs: m.stack[m.stack.len() - 2]->FLOAT_0,
                rhs: m.stack[m.stack.len() - 1]->FLOAT_0,
            },
        )
    } else {
        None
    }
}

/// The state after a requested float result `bits` is supplied to state
/// `m`: the two operands are popped, the result is pushed, and the pointer
/// advances by one.
pub open spec fn supply_spec(m: MachineState, bits: u32) -> MachineState {
    MachineState {
        stack: m.stack.take(m.stack.len() - 2).push(Data::FLOAT(bits)),
        ip: m.ip + 1,
        ..m
    }
}

/// The execution engine.
#[derive(Debug)]
pub struct Machine {
    program: Program,
    instructionpointer: usize,
    pub stack: Vec<Data>,
    greater: bool,
    equal: bool,
    less: bool,
}

impl View for Machine {
    type V = MachineState;

    closed spec fn view(&self) -> MachineState {
        MachineState {
            prog: self.program.instructions@,
            ip: self.instructionpointer as nat,
            stack: self.stack@,
            greater: self.greater,
            equal: self.equal,
            less: self.less,
        }
    }
}

impl Machine {
    /// A fresh machine owning `program`: pointer at zero, empty stack, all
    /// three flags false.
    pub fn new(program: Program) -> (m: Machine)
        ensures
            m@ == (MachineState {
                prog: program.instructions@,
                ip: 0,
                stack: Seq::<Data>::empty(),
                greater: false,
                equal: false,
                less: false,
            }),
    {
        Machine {
            instructionpointer: 0,
            stack: Vec::new(),
            program,
            greater: false,
            equal: false,
            less: false,
        }
    }

    /// The current instruction pointer.
    pub fn pointer(&self) -> (r: usize)
        ensures
            r == self@.ip,
    {
        self.instructionpointer
    }

    /// The number of instructions of the owned program.
    pub fn program_len(&self) -> (r: usize)
        ensures
            r == self@.prog.len(),
    {
        self.program.instructions.len()
    }

    /// The instruction at index `i` of the owned program.
    pub fn instruction_at(&self, i: usize) -> (r: Instruction)
        requires
            i < self@.prog.len(),
        ensures
            r == self@.prog[i as int],
    {
        self.program.instructions[i]
    }

    /// The greater flag.
    pub fn flag_greater(&self) -> (r: bool)
        ensures
            r == self@.greater,
    {
        self.greater
    }

    /// The equal flag.
    pub fn flag_equal(&self) -> (r: bool)
        ensures
            r == self@.equal,
    {
        self.equal
    }

    /// The less flag.
    pub fn flag_less(&self) -> (r: bool)
        ensures
            r == self@.less,
    {
        self.less
    }

    /// Execute exactly the instruction at the current pointer, per
    /// [`step_spec`].  `Ok(None)` means the instruction completed;
    /// `Ok(Some(req))` means the machine is unchanged and waits for the
    /// float result `req` through [`Machine::supply_float`].
    pub fn step(&mut self) -> (r: Result<Option<FloatRequest>, RuntimeFault>)
        requires
            old(self)@.ip < old(self)@.prog.len(),
        ensures
            final(self)@ == step_spec(old(self)@).0,
            r == step_spec(old(self)@).1,
    {
        let proglen = self.program.instructions.len();
        match self.program.instructions[self.instructionpointer] {
            Instruction::NOP => {
                self.instructionpointer = self.instructionpointer + 1;
                Ok(None)
            },
            Instruction::PUSH(d) => {
                self.stack.push(d);
                self.instructionpointer = self.instructionpointer + 1;
                Ok(None)
            },
            Instruction::PLUS => self.arith(ArithOp::PLUS),
            Instruction::MINUS => self.arith(ArithOp::MINUS),
            Instruction::MULT => self.arith(ArithOp::MULT),
            Instruction::JUMP(n) => {
                self.instructionpointer = n as usize;
                Ok(None)
            },
            Instruction::CMP => self.cmp(),
            Instruction::JE(n) => {
                if self.equal {
                    self.instructionpointer = n as usize;
                } else {
                    self.instructionpointer = self.instructionpointer + 1;
                }
                Ok(None)
            },
            Instruction::JNE(n) => {
                if !self.equal {
                    self.instructionpointer = n as usize;
                } else {
                    self.instructionpointer = self.instructionpointer + 1;
                }
                Ok(None)
            },
            Instruction::JG(n) => {
                if self.greater {
                    self.instructionpointer = n as usize;
                } else {
                    self.instructionpointer = self.instructionpointer + 1;
                }
                Ok(None)
            },
            Instruction::JGE(n) => {
                if !self.less {
                    self.instructionpointer = n as usize;
                } else {
                    self.instructionpointer = self.instructionpointer + 1;
                }
                Ok(None)
            },
            Instruction::JL(n) => {
                if self.less {
                    self.instructionpointer = n as usize;
                } else {
                    self.instructionpointer = self.instructionpointer + 1;
                }
                Ok(None)
            },
            Instruction::JLE(n) => {
                if !self.greater {
                    self.instructionpointer = n as usize;
                } else {
                    self.instructionpointer = self.instructionpointer + 1;
                }
                Ok(None)
            },
        }
    }

    /// Pop `a`, pop `b`, push `b op a` — integers computed here, floats
    /// requested from the caller.
    fn arith(&mut self, op: ArithOp) -> (r: Result<Option<FloatRequest>, RuntimeFault>)
        requires
            old(self)@.ip < old(self)@.prog.len(),
        ensures
            final(self)@ == arith_step(old(self)@, op).0,
            r == arith_step(old(self)@, op).1,
    {
        let proglen = self.program.instructions.len();
        let a = match self.stack.pop() {
            Some(v) => v,
            None => {
                return Err(RuntimeFault::StackUnderflow);
            },
        };
        let b = match self.stack.pop() {
            Some(v) => v,
            None => {
                return Err(RuntimeFault::StackUnderflow);
            },
        };
        match (b, a) {
            (Data::NUMBER(bv), Data::NUMBER(av)) => {
                let result: u32 = match op {
                    ArithOp::PLUS => bv.wrapping_add(av),
                    ArithOp::MINUS => bv.wrapping_sub(av),
                    ArithOp::MULT => bv.wrapping_mul(av),
                };
                self.stack.push(Data::NUMBER(result));
                self.instructionpointer = self.instructionpointer + 1;
                proof {
                    assert(self@.stack =~= arith_step(old(self)@, op).0.stack);
                }
                Ok(None)
            },
            (Data::FLOAT(bf), Data::FLOAT(af)) => {
                self.stack.push(b);
                self.stack.push(a);
                proof {
                    assert(self@.stack =~= old(self)@.stack);
                    assert(self@ == old(self)@);
                }
                Ok(Some(FloatRequest { op, lhs: bf, rhs: af }))
            },
            _ => {
                proof {
                    assert(self@.stack =~= arith_step(old(self)@, op).0.stack);
                }
                Err(RuntimeFault::TypeMismatch)
            },
        }
    }

    /// Peek the top two values and set the three flags, per [`cmp_step`].
    fn cmp(&mut self) -> (r: Result<Option<FloatRequest>, RuntimeFault>)
        requires
            old(self)@.ip < old(self)@.prog.len(),
        ensures
            final(self)@ == cmp_step(old(self)@).0,
            r == cmp_step(old(self)@).1,
    {
        let proglen = self.program.instructions.len();
        if self.stack.len() < 2 {
            return Err(RuntimeFault::StackUnderflow);
        }
        let a = self.stack[self.stack.len() - 1];
        let b = self.stack[self.stack.len() - 2];
        match (b, a) {
            (Data::NUMBER(bv), Data::NUMBER(av)) => {
                self.greater = bv > av;
                self.equal = bv == av;
                self.less = bv < av;
                self.instructionpointer = self.instructionpointer + 1;
                Ok(None)
            },
            (Data::FLOAT(bf), Data::FLOAT(af)) => {
                self.greater = float_gt(bf, af);
                self.equal = float_eq(bf, af);
                self.less = float_lt(bf, af);
                self.instructionpointer = self.instructionpointer + 1;
                Ok(None)
            },
            _ => Err(RuntimeFault::TypeMismatch),
        }
    }

    /// Complete a requested float operation: pop the two operands, push the
    /// supplied result `bits`, advance the pointer.
    pub fn supply_float(&mut self, bits: u32)
        requires
            float_request_of(old(self)@) is Some,
        ensures
            final(self)@ == supply_spec(old(self)@, bits),
    {
        let proglen = self.program.instructions.len();
        let _ = self.stack.pop();
        let _ = self.stack.pop();
        self.stack.push(Data::FLOAT(bits));
        self.instructionpointer = self.instructionpointer + 1;
        proof {
            assert(self@.stack =~= supply_spec(old(self)@, bits).stack);
        }
    }

    /// Step until the machine halts, faults, needs a float result, or has
    /// taken `fuel` steps, per [`run_spec`]: the final state and the result
    /// are exactly those of iterating [`step_spec`] under the budget.
    /// `Ok(RunOutcome::NeedFloat(req))` leaves the machine waiting for `req`,
    /// to be resumed by [`Machine::supply_float`] and another call of this
    /// function; `Ok(RunOutcome::OutOfFuel)` leaves it still running, and
    /// another call continues it.
    pub fn run(&mut self, fuel: u64) -> (r: Result<RunOutcome, RuntimeFault>)
        ensures
            final(self)@ == run_spec(old(self)@, fuel as nat).0,
            r == run_spec(old(self)@, fuel as nat).1,
            final(self)@.prog == old(self)@.prog,
            r == Ok::<RunOutcome, RuntimeFault>(RunOutcome::Halted) <==> final(self)@.ip
                == final(self)@.prog.len(),
            r matches Ok(RunOutcome::NeedFloat(req)) ==> float_request_of(final(self)@)
                == Some(req),
            r == Ok::<RunOutcome, RuntimeFault>(RunOutcome::OutOfFuel) ==> final(self)@.ip
                < final(self)@.prog.len(),
            r == Err::<RunOutcome, RuntimeFault>(RuntimeFault::InvalidJumpTarget)
                ==> final(self)@.ip > final(self)@.prog.len(),
    {
        let mut remaining = fuel;
        loop
            invariant
                self@.prog == old(self)@.prog,
                run_spec(old(self)@, fuel as nat) == run_spec(self@, remaining as nat),
            decreases remaining,
        {
            if self.instructionpointer >= self.program.instructions.len() {
                if self.instructionpointer == self.program.instructions.len() {
                    return Ok(RunOutcome::Halted);
                } else {
                    return Err(RuntimeFault::InvalidJumpTarget);
                }
            }
            if remaining == 0 {
                return Ok(RunOutcome::OutOfFuel);
            }
            remaining = remaining - 1;
            let ghost pre = self@;
            let ghost prefuel: nat = remaining as nat + 1;
            match self.step() {
                Ok(None) => {
                    proof {
                        assert(run_spec(pre, prefuel) == run_spec(self@, remaining as nat));
                    }
                },
                Ok(Some(req)) => {
                    proof {
                        assert(self@ == pre);
                        assert(float_request_of(self@) == Some(req));
                        assert(run_spec(pre, prefuel) == (self@, Ok::<RunOutcome, RuntimeFault>(
                            RunOutcome::NeedFloat(req),
                        )));
                    }
                    return Ok(RunOutcome::NeedFloat(req));
                },
                Err(f) => {
                    proof {
                        assert(f != RuntimeFault::InvalidJumpTarget);
                        assert(self@.ip < self@.prog.len());
                        assert(run_spec(pre, prefuel) == (self@, Err::<RunOutcome, RuntimeFault>(
                            f,
                        )));
                    }
                    return Err(f);
                },
            }
        }
    }
}

} // verus!
