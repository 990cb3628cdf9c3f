//! The stack machine: its state, the meaning of one instruction, and the
//! fetch-execute-advance loop.

use crate::instr::Instr;
use crate::literal::{decimal, format_integer};
use crate::op::Op;
use vstd::prelude::*;

verus! {

/// A value on the operand stack.
#[derive(Debug, Clone, Copy, PartialEq, Eq, Structural)]
pub enum Value {
    Integer(i64),
}

impl Value {
    /// The integer that the value holds.
    pub open spec fn spec_integer(self) -> i64 {
        match self {
            Value::Integer(i) => i,
        }
    }

    /// The text that `print` shows for the value: an integer in decimal.
    pub open spec fn spec_text(self) -> Seq<char> {
        match self {
            Value::Integer(i) => decimal(i as int),
        }
    }

    #[verifier::when_used_as_spec(spec_integer)]
    pub fn integer(self) -> (i: i64)
        ensures
            i == self.spec_integer(),
    {
        match self {
            Value::Integer(i) => i,
        }
    }

    /// The text that `print` shows for the value.
    pub fn to_text(&self) -> (text: String)
        ensures
            text@ == self.spec_text(),
    {
        match self {
            Value::Integer(i) => format_integer(*i),
        }
    }
}

/// Why decoding or running a program failed.
#[derive(Debug, Clone, Copy, PartialEq, Eq, Structural)]
pub enum InterpreterError {
    /// The byte stream's length (given here) is no multiple of the
    /// instruction width.
    InvalidNumberOfBytes(usize),
    /// An encoded instruction starts with this byte, which is the code of no
    /// opcode.
    UnknownOpcode(u8),
    /// An instruction needed more values than the stack holds.
    StackEmpty,
    /// An instruction found a value of the wrong kind: expected the first,
    /// got the second.
    InvalidType(Value, Value),
    /// `div` with a zero divisor.
    DivByZero,
    /// `mod` with a zero divisor.
    ModByZero,
    /// The result of an arithmetic instruction does not fit a 64-bit signed
    /// integer.
    Overflow,
    /// The program counter left the program: a jump target outside it, an
    /// instruction other than `halt` at its end, or an empty program.
    PcOutOfRange,
    /// The opcode is part of the instruction set but the machine gives it no
    /// effect.
    NotImplemented(Op),
    /// The run was stopped after the number of steps that the machine was
    /// made with; the program had neither halted nor failed.
    StepLimit,
}

impl InterpreterError {
    /// Fatal faults say that the program itself is broken (it ran off its
    /// end, or uses an opcode without effect). The others are raised by the
    /// data the program met, or by the host's step limit.
    pub open spec fn spec_is_fatal(&self) -> bool {
        match self {
            InterpreterError::PcOutOfRange | InterpreterError::NotImplemented(_) => true,
            _ => false,
        }
    }

    #[verifier::when_used_as_spec(spec_is_fatal)]
    pub fn is_fatal(&self) -> (fatal: bool)
        ensures
            fatal == self.spec_is_fatal(),
    {
        match self {
            InterpreterError::PcOutOfRange | InterpreterError::NotImplemented(_) => true,
            _ => false,
        }
    }
}

/// How the machine stands after a step.
#[derive(Debug, Clone, Copy, PartialEq, Eq, Structural)]
pub enum Status {
    /// The next instruction can be fetched.
    Running,
    /// `halt` was executed.
    Halted,
    /// The step failed.
    Faulted(InterpreterError),
}

/// The state of the machine as the contracts see it.
pub struct Machine {
    /// Index of the instruction to execute next.
    pub pc: int,
    /// The operand stack, bottom first.
    pub stack: Seq<Value>,
    /// The values printed so far, oldest first.
    pub output: Seq<Value>,
}

impl Machine {
    /// The state every run starts in.
    pub open spec fn initial() -> Machine {
        Machine { pc: 0, stack: Seq::empty(), output: Seq::empty() }
    }

    pub open spec fn with_stack(self, stack: Seq<Value>) -> Machine {
        Machine { pc: self.pc, stack, output: self.output }
    }

    pub open spec fn depth(self) -> int {
        self.stack.len() as int
    }

    /// The value `k` places below the top of the stack (`0` is the top).
    pub open spec fn peek(self, k: int) -> Value
        recommends
            0 <= k < self.depth(),
    {
        self.stack[self.depth() - 1 - k]
    }
}

/// Quotient of the division that rounds towards zero.
pub open spec fn trunc_div(a: int, b: int) -> int
    recommends
        b != 0,
{
    let q = (if a < 0 { -a } else { a }) / (if b < 0 { -b } else { b });
    if (a < 0) == (b < 0) {
        q
    } else {
        -q
    }
}

/// Remainder of the division that rounds towards zero: it has the sign of the
/// dividend.
pub open spec fn trunc_rem(a: int, b: int) -> int
    recommends
        b != 0,
{
    let r = (if a < 0 { -a } else { a }) % (if b < 0 { -b } else { b });
    if a < 0 {
        -r
    } else {
        r
    }
}

/// A mathematical result as a machine integer, or the overflow fault where
/// it does not fit.
pub open spec fn fit(v: int) -> Result<i64, InterpreterError> {
    if i64::MIN <= v <= i64::MAX {
        Ok(v as i64)
    } else {
        Err(InterpreterError::Overflow)
    }
}

/// What the arithmetic instruction `op` makes of `a` (pushed first) and `b`
/// (pushed last, on top).
pub open spec fn arith(op: Op, a: i64, b: i64) -> Result<i64, InterpreterError>
    recommends
        op == Op::Add || op == Op::Sub || op == Op::Mul || op == Op::Div || op == Op::Mod,
{
    match op {
        Op::Add => fit(a + b),
        Op::Sub => fit(a - b),
        Op::Mul => fit(a * b),
        Op::Div => if b == 0 {
            Err(InterpreterError::DivByZero)
        } else {
            fit(trunc_div(a as int, b as int))
        },
        Op::Mod => if b == 0 {
            Err(InterpreterError::ModByZero)
        } else if a == i64::MIN && b == -1 {
            Err(InterpreterError::Overflow)
        } else {
            fit(trunc_rem(a as int, b as int))
        },
        _ => Err(InterpreterError::NotImplemented(op)),
    }
}

/// What `inc` and `dec` make of the top value.
pub open spec fn adjust(op: Op, a: i64) -> Result<i64, InterpreterError>
    recommends
        op == Op::Inc || op == Op::Dec,
{
    match op {
        Op::Inc => fit(a + 1),
        Op::Dec => fit(a - 1),
        _ => Err(InterpreterError::NotImplemented(op)),
    }
}

/// The effect of one instruction on stack and output, the program counter
/// left alone. An instruction that finds too few values fails with
/// `StackEmpty` and changes nothing. A two-operand instruction whose
/// arithmetic fails has taken both operands off the stack. `inc` and `dec`
/// leave the top value as it was where they fail.
pub open spec fn apply(instr: Instr, m: Machine) -> (Machine, Option<InterpreterError>) {
    let n = m.depth();
    match instr.op {
        Op::Pop => if n < 1 {
            (m, Some(InterpreterError::StackEmpty))
        } else {
            (m.with_stack(m.stack.drop_last()), None)
        },
        Op::Add | Op::Sub | Op::Mul | Op::Div | Op::Mod => if n < 2 {
            (m, Some(InterpreterError::StackEmpty))
        } else {
            let rest = m.stack.take(n - 2);
            match arith(instr.op, m.peek(1).spec_integer(), m.peek(0).spec_integer()) {
                Ok(v) => (m.with_stack(rest.push(Value::Integer(v))), None),
                Err(e) => (m.with_stack(rest), Some(e)),
            }
        },
        Op::Inc | Op::Dec => if n < 1 {
            (m, Some(InterpreterError::StackEmpty))
        } else {
            match adjust(instr.op, m.peek(0).spec_integer()) {
                Ok(v) => (m.with_stack(m.stack.update(n - 1, Value::Integer(v))), None),
                Err(e) => (m, Some(e)),
            }
        },
        Op::Print => if n < 1 {
            (m, Some(InterpreterError::StackEmpty))
        } else {
            (
                Machine {
                    pc: m.pc,
                    stack: m.stack.drop_last(),
                    output: m.output.push(m.peek(0)),
                },
                None,
            )
        },
        Op::Dup => if n < 1 {
            (m, Some(InterpreterError::StackEmpty))
        } else {
            (m.with_stack(m.stack.push(m.peek(0))), None)
        },
        Op::Over => if n < 2 {
            (m, Some(InterpreterError::StackEmpty))
        } else {
            (m.with_stack(m.stack.push(m.peek(1))), None)
        },
        Op::Push => (m.with_stack(m.stack.push(Value::Integer(instr.value))), None),
        Op::Jmp | Op::Halt => (m, None),
        _ => (m, Some(InterpreterError::NotImplemented(instr.op))),
    }
}

/// One fetch-execute-advance step. The instruction at `pc` takes effect;
/// then `halt` stops the machine, `jmp` makes its operand the next `pc`, and
/// every other instruction makes `pc + 1` the next `pc`. A next `pc` outside
/// `0 <= pc < program.len()` is a fault, raised after the effect and with
/// `pc` left where it was. So is a `pc` that is outside the program to begin
/// with.
pub open spec fn step(program: Seq<Instr>, m: Machine) -> (Machine, Status) {
    if !(0 <= m.pc < program.len()) {
        (m, Status::Faulted(InterpreterError::PcOutOfRange))
    } else {
        let instr = program[m.pc];
        let (after, failure) = apply(instr, m);
        match failure {
            Some(e) => (after, Status::Faulted(e)),
            None => if instr.op == Op::Halt {
                (after, Status::Halted)
            } else {
                let next = if instr.op == Op::Jmp {
                    instr.value as int
                } else {
                    m.pc + 1
                };
                if 0 <= next < program.len() {
                    (Machine { pc: next, stack: after.stack, output: after.output }, Status::Running)
                } else {
                    (after, Status::Faulted(InterpreterError::PcOutOfRange))
                }
            },
        }
    }
}

/// The machine after at most `fuel` steps from `m`: it stops at the first
/// step that halts or fails. `Running` in the result says that `fuel` steps
/// were taken and none of them did.
pub open spec fn run(program: Seq<Instr>, m: Machine, fuel: nat) -> (Machine, Status)
    decreases fuel,
{
    if fuel == 0 {
        (m, Status::Running)
    } else {
        let (next, status) = step(program, m);
        match status {
            Status::Running => run(program, next, (fuel - 1) as nat),
            _ => (next, status),
        }
    }
}

/// What `execute` reports for the status that a run ended in.
pub open spec fn verdict(status: Status) -> Result<(), InterpreterError> {
    match status {
        Status::Halted => Ok(()),
        Status::Faulted(e) => Err(e),
        Status::Running => Err(InterpreterError::StepLimit),
    }
}

/// Quotient and remainder of the division towards zero fit together: they
/// make up the dividend, and the remainder is smaller than the divisor and
/// has the sign of the dividend.
pub proof fn lemma_trunc_div_rem(a: int, b: int)
    requires
        b != 0,
    ensures
        a == b * trunc_div(a, b) + trunc_rem(a, b),
        a >= 0 ==> 0 <= trunc_rem(a, b),
        a <= 0 ==> trunc_rem(a, b) <= 0,
        b > 0 ==> -b < trunc_rem(a, b) < b,
        b < 0 ==> b < trunc_rem(a, b) < -b,
{
    let x = if a < 0 {
        -a
    } else {
        a
    };
    let y = if b < 0 {
        -b
    } else {
        b
    };
    vstd::arithmetic::div_mod::lemma_fundamental_div_mod(x, y);
    vstd::arithmetic::div_mod::lemma_mod_bound(x, y);
    let q = x / y;
    let r = x % y;
    assert(x == y * q + r);
    assert(b * (-q) == -(b * q)) by (nonlinear_arith);
    assert((-b) * q == -(b * q)) by (nonlinear_arith);
}

/// An opcode without a run-time effect faults when it is executed and
/// leaves the machine as it was; no other opcode raises that fault.
pub proof fn lemma_not_implemented(instr: Instr, m: Machine)
    ensures
        !instr.op.spec_is_implemented() ==> apply(instr, m) == (
            m,
            Some(InterpreterError::NotImplemented(instr.op)),
        ),
        instr.op.spec_is_implemented() ==> !(apply(instr, m).1 matches Some(
            InterpreterError::NotImplemented(_),
        )),
{
}

/// An instruction that finds too few values on the stack changes nothing.
pub proof fn lemma_underflow_changes_nothing(instr: Instr, m: Machine)
    ensures
        apply(instr, m).1 == Some(InterpreterError::StackEmpty) ==> apply(instr, m).0 == m,
{
}

/// A step that leaves the machine running leaves it at an instruction of
/// the program; a step that halts or fails leaves the program counter
/// where it was.
pub proof fn lemma_step_pc(program: Seq<Instr>, m: Machine)
    ensures
        step(program, m).1 == Status::Running ==> 0 <= step(program, m).0.pc < program.len(),
        step(program, m).1 != Status::Running ==> step(program, m).0.pc == m.pc,
{
}

/// From the initial state on, the program counter of a machine that is
/// still running is the index of an instruction.
pub proof fn lemma_run_pc(program: Seq<Instr>, m: Machine, fuel: nat)
    requires
        0 <= m.pc < program.len(),
    ensures
        run(program, m, fuel).1 == Status::Running ==> 0 <= run(program, m, fuel).0.pc
            < program.len(),
    decreases fuel,
{
    if fuel > 0 {
        lemma_step_pc(program, m);
        if step(program, m).1 == Status::Running {
            lemma_run_pc(program, step(program, m).0, (fuel - 1) as nat);
        }
    }
}

/// A run that has halted or failed is not changed by a larger step limit.
pub proof fn lemma_run_more_fuel(program: Seq<Instr>, m: Machine, fuel: nat, more: nat)
    requires
        fuel <= more,
        run(program, m, fuel).1 != Status::Running,
    ensures
        run(program, m, more) == run(program, m, fuel),
    decreases fuel,
{
    if fuel > 0 {
        if step(program, m).1 == Status::Running {
            lemma_run_more_fuel(
                program,
                step(program, m).0,
                (fuel - 1) as nat,
                (more - 1) as nat,
            );
        }
    }
}

/// What has been printed stays printed: the output at the start of a run is
/// the beginning of the output at its end.
pub proof fn lemma_run_output_grows(program: Seq<Instr>, m: Machine, fuel: nat)
    ensures
        m.output.len() <= run(program, m, fuel).0.output.len(),
        run(program, m, fuel).0.output.take(m.output.len() as int) == m.output,
    decreases fuel,
{
    assert(m.output.take(m.output.len() as int) =~= m.output);
    if fuel > 0 {
        let next = step(program, m).0;
        assert(m.output.len() <= next.output.len());
        assert(next.output.take(m.output.len() as int) =~= m.output);
        if step(program, m).1 == Status::Running {
            lemma_run_output_grows(program, next, (fuel - 1) as nat);
            let end = run(program, next, (fuel - 1) as nat).0;
            assert(end.output.take(m.output.len() as int) =~= end.output.take(
                next.output.len() as int,
            ).take(m.output.len() as int));
        }
    }
}

/// The machine. It keeps the state of its last run for inspection.
pub struct VM {
    stack: Vec<Value>,
    output: Vec<Value>,
    pc: usize,
    step_limit: u64,
}

impl View for VM {
    type V = Machine;

    closed spec fn view(&self) -> Machine {
        Machine { pc: self.pc as int, stack: self.stack@, output: self.output@ }
    }
}

impl VM {
    /// The number of steps after which `execute` gives up.
    pub closed spec fn spec_step_limit(&self) -> u64 {
        self.step_limit
    }

    /// A machine in the initial state that runs a program for as long as a
    /// 64-bit step counter lasts.
    pub fn new() -> (vm: Self)
        ensures
            vm@ == Machine::initial(),
            vm.spec_step_limit() == u64::MAX,
    {
        Self { stack: Vec::new(), output: Vec::new(), pc: 0, step_limit: u64::MAX }
    }

    /// A machine in the initial state that stops a run after `limit` steps.
    pub fn with_step_limit(limit: u64) -> (vm: Self)
        ensures
            vm@ == Machine::initial(),
            vm.spec_step_limit() == limit,
    {
        Self { stack: Vec::new(), output: Vec::new(), pc: 0, step_limit: limit }
    }

    #[verifier::when_used_as_spec(spec_step_limit)]
    pub fn step_limit(&self) -> (limit: u64)
        ensures
            limit == self.spec_step_limit(),
    {
        self.step_limit
    }

    /// The operand stack, bottom first.
    pub fn stack(&self) -> (stack: &Vec<Value>)
        ensures
            stack@ == self@.stack,
    {
        &self.stack
    }

    /// The values printed so far, oldest first.
    pub fn output(&self) -> (output: &Vec<Value>)
        ensures
            output@ == self@.output,
    {
        &self.output
    }

    /// Index of the instruction that the machine stands at.
    pub fn pc(&self) -> (pc: usize)
        ensures
            pc == self@.pc,
    {
        self.pc
    }

    /// Puts the machine back into the initial state. The step limit stays.
    pub fn reset(&mut self)
        ensures
            final(self)@ == Machine::initial(),
            final(self).spec_step_limit() == old(self).spec_step_limit(),
    {
        self.stack.clear();
        self.output.clear();
        self.pc = 0;
    }

    /// Runs `bytecode` from the initial state, whatever state the machine
    /// was in, for at most `step_limit` steps. `Ok` exactly where the run
    /// reaches `halt`. Otherwise the error is the fault of the step that
    /// failed, or `StepLimit` where the program was still running after the
    /// last step. Either way the machine is left in the state that the run
    /// ended in.
    pub fn execute(&mut self, bytecode: Vec<Instr>) -> (result: Result<(), InterpreterError>)
        ensures
            final(self).spec_step_limit() == old(self).spec_step_limit(),
            final(self)@ == run(bytecode@, Machine::initial(), old(self).spec_step_limit() as nat).0,
            result == verdict(
                run(bytecode@, Machine::initial(), old(self).spec_step_limit() as nat).1,
            ),
    {
        self.reset();
        let limit: u64 = self.step_limit;
        let mut taken: u64 = 0;
        while taken < limit
            invariant
                taken <= limit,
                self.spec_step_limit() == limit,
                old(self).spec_step_limit() == limit,
                run(bytecode@, Machine::initial(), limit as nat) == run(
                    bytecode@,
                    self@,
                    (limit - taken) as nat,
                ),
            decreases limit - taken,
        {
            match self.step(bytecode.as_slice()) {
                Status::Running => {
                    taken = taken + 1;
                },
                Status::Halted => {
                    return Ok(());
                },
                Status::Faulted(e) => {
                    return Err(e);
                },
            }
        }
        Err(InterpreterError::StepLimit)
    }

    /// Executes the instruction at `pc` and advances.
    pub fn step(&mut self, program: &[Instr]) -> (status: Status)
        ensures
            final(self).spec_step_limit() == old(self).spec_step_limit(),
            (final(self)@, status) == step(program@, old(self)@),
    {
        if self.pc >= program.len() {
            return Status::Faulted(InterpreterError::PcOutOfRange);
        }
        let instr: Instr = program[self.pc];
        match self.apply(instr) {
            Err(e) => Status::Faulted(e),
            Ok(()) => {
                match instr.op {
                    Op::Halt => Status::Halted,
                    Op::Jmp => {
                        if 0 <= instr.value && (instr.value as u64) < (program.len() as u64) {
                            self.pc = instr.value as usize;
                            Status::Running
                        } else {
                            Status::Faulted(InterpreterError::PcOutOfRange)
                        }
                    },
                    _ => {
                        if self.pc + 1 < program.len() {
                            self.pc = self.pc + 1;
                            Status::Running
                        } else {
                            Status::Faulted(InterpreterError::PcOutOfRange)
                        }
                    },
                }
            },
        }
    }

    /// Gives `instr` its effect on stack and output.
    fn apply(&mut self, instr: Instr) -> (result: Result<(), InterpreterError>)
        ensures
            final(self).spec_step_limit() == old(self).spec_step_limit(),
            final(self)@ == apply(instr, old(self)@).0,
            match result {
                Ok(()) => apply(instr, old(self)@).1 is None,
                Err(e) => apply(instr, old(self)@).1 == Some(e),
            },
    {
        match instr.op {
            Op::Pop => {
                match self.pop_stack_top() {
                    Ok(_) => Ok(()),
                    Err(e) => Err(e),
                }
            },
            Op::Add => {
                let f = |a: i64, b: i64| -> (r: Result<i64, InterpreterError>)
                    ensures
                        r == arith(Op::Add, a, b),
                    {
                        match a.checked_add(b) {
                            Some(v) => Ok(v),
                            None => Err(InterpreterError::Overflow),
                        }
                    };
                self.apply_transform_to_two_integers(f)
            },
            Op::Sub => {
                let f = |a: i64, b: i64| -> (r: Result<i64, InterpreterError>)
                    ensures
                        r == arith(Op::Sub, a, b),
                    {
                        match a.checked_sub(b) {
                            Some(v) => Ok(v),
                            None => Err(InterpreterError::Overflow),
                        }
                    };
                self.apply_transform_to_two_integers(f)
            },
            Op::Mul => {
                let f = |a: i64, b: i64| -> (r: Result<i64, InterpreterError>)
                    ensures
                        r == arith(Op::Mul, a, b),
                    {
                        match a.checked_mul(b) {
                            Some(v) => Ok(v),
                            None => Err(InterpreterError::Overflow),
                        }
                    };
                self.apply_transform_to_two_integers(f)
            },
            Op::Div => {
                let f = |a: i64, b: i64| -> (r: Result<i64, InterpreterError>)
                    ensures
                        r == arith(Op::Div, a, b),
                    {
                        divide(a, b)
                    };
                self.apply_transform_to_two_integers(f)
            },
            Op::Mod => {
                let f = |a: i64, b: i64| -> (r: Result<i64, InterpreterError>)
                    ensures
                        r == arith(Op::Mod, a, b),
                    {
                        remainder(a, b)
                    };
                self.apply_transform_to_two_integers(f)
            },
            Op::Inc => {
                let f = |a: i64| -> (r: Result<i64, InterpreterError>)
                    ensures
                        r == adjust(Op::Inc, a),
                    {
                        match a.checked_add(1) {
                            Some(v) => Ok(v),
                            None => Err(InterpreterError::Overflow),
                        }
                    };
                self.apply_transform_to_top_integer(f)
            },
            Op::Dec => {
                let f = |a: i64| -> (r: Result<i64, InterpreterError>)
                    ensures
                        r == adjust(Op::Dec, a),
                    {
                        match a.checked_sub(1) {
                            Some(v) => Ok(v),
                            None => Err(InterpreterError::Overflow),
                        }
                    };
                self.apply_transform_to_top_integer(f)
            },
            Op::Print => {
                match self.pop_stack_top() {
                    Ok(value) => {
                        self.output.push(value);
                        Ok(())
                    },
                    Err(e) => Err(e),
                }
            },
            Op::Dup => {
                let n: usize = self.stack.len();
                if n < 1 {
                    return Err(InterpreterError::StackEmpty);
                }
                let top: Value = self.stack[n - 1];
                self.stack.push(top);
                Ok(())
            },
            Op::Over => {
                let n: usize = self.stack.len();
                if n < 2 {
                    return Err(InterpreterError::StackEmpty);
                }
                let second: Value = self.stack[n - 2];
                self.stack.push(second);
                Ok(())
            },
            Op::Push => {
                self.stack.push(Value::Integer(instr.value));
                Ok(())
            },
            Op::Jmp | Op::Halt => Ok(()),
            Op::Dup2
            | Op::Swap
            | Op::Clear
            | Op::Je
            | Op::Jn
            | Op::Jg
            | Op::Jl
            | Op::Jge
            | Op::Jle
            | Op::Jz
            | Op::Jnz => Err(InterpreterError::NotImplemented(instr.op)),
        }
    }

    /// Takes the top value off the stack.
    fn pop_stack_top(&mut self) -> (result: Result<Value, InterpreterError>)
        ensures
            final(self).spec_step_limit() == old(self).spec_step_limit(),
            old(self)@.depth() == 0 ==> result == Err::<Value, InterpreterError>(
                InterpreterError::StackEmpty,
            ) && final(self)@ == old(self)@,
            old(self)@.depth() > 0 ==> result == Ok::<Value, InterpreterError>(old(self)@.peek(0))
                && final(self)@ == old(self)@.with_stack(old(self)@.stack.drop_last()),
    {
        match self.stack.pop() {
            Some(value) => Ok(value),
            None => Err(InterpreterError::StackEmpty),
        }
    }

    /// Replaces the two top values by what `func` makes of them, the lower
    /// one as its first argument. With fewer than two values nothing
    /// changes. Where `func` fails, both values are gone.
    fn apply_transform_to_two_integers(
        &mut self,
        func: impl Fn(i64, i64) -> Result<i64, InterpreterError>,
    ) -> (result: Result<(), InterpreterError>)
        requires
            forall|a: i64, b: i64| func.requires((a, b)),
        ensures
            final(self).spec_step_limit() == old(self).spec_step_limit(),
            old(self)@.depth() < 2 ==> result == Err::<(), InterpreterError>(
                InterpreterError::StackEmpty,
            ) && final(self)@ == old(self)@,
            old(self)@.depth() >= 2 ==> exists|outcome: Result<i64, InterpreterError>|
                {
                    &&& #[trigger] func.ensures(
                        (old(self)@.peek(1).spec_integer(), old(self)@.peek(0).spec_integer()),
                        outcome,
                    )
                    &&& match outcome {
                        Ok(v) => result == Ok::<(), InterpreterError>(()) && final(self)@ == old(
                            self,
                        )@.with_stack(
                            old(self)@.stack.take(old(self)@.depth() - 2).push(Value::Integer(v)),
                        ),
                        Err(e) => result == Err::<(), InterpreterError>(e) && final(self)@ == old(
                            self,
                        )@.with_stack(old(self)@.stack.take(old(self)@.depth() - 2)),
                    }
                },
    {
        if self.stack.len() < 2 {
            return Err(InterpreterError::StackEmpty);
        }
        let b: i64 = self.stack[self.stack.len() - 1].integer();
        let a: i64 = self.stack[self.stack.len() - 2].integer();
        self.stack.pop();
        self.stack.pop();
        assert(self.stack@ == old(self)@.stack.take(old(self)@.depth() - 2));
        let outcome = func(a, b);
        assert(func.ensures(
            (old(self)@.peek(1).spec_integer(), old(self)@.peek(0).spec_integer()),
            outcome,
        ));
        match outcome {
            Ok(v) => {
                self.stack.push(Value::Integer(v));
                Ok(())
            },
            Err(e) => Err(e),
        }
    }

    /// Replaces the top value by what `func` makes of it. With an empty
    /// stack, or where `func` fails, nothing changes.
    fn apply_transform_to_top_integer(
        &mut self,
        func: impl Fn(i64) -> Result<i64, InterpreterError>,
    ) -> (result: Result<(), InterpreterError>)
        requires
            forall|a: i64| func.requires((a,)),
        ensures
            final(self).spec_step_limit() == old(self).spec_step_limit(),
            old(self)@.depth() < 1 ==> result == Err::<(), InterpreterError>(
                InterpreterError::StackEmpty,
            ) && final(self)@ == old(self)@,
            old(self)@.depth() >= 1 ==> exists|outcome: Result<i64, InterpreterError>|
                {
                    &&& #[trigger] func.ensures((old(self)@.peek(0).spec_integer(),), outcome)
                    &&& match outcome {
                        Ok(v) => result == Ok::<(), InterpreterError>(()) && final(self)@ == old(
                            self,
                        )@.with_stack(
                            old(self)@.stack.update(old(self)@.depth() - 1, Value::Integer(v)),
                        ),
                        Err(e) => result == Err::<(), InterpreterError>(e) && final(self)@ == old(
                            self,
                        )@,
                    }
                },
    {
        let n: usize = self.stack.len();
        if n < 1 {
            return Err(InterpreterError::StackEmpty);
        }
        let a: i64 = self.stack[n - 1].integer();
        let outcome = func(a);
        assert(func.ensures((old(self)@.peek(0).spec_integer(),), outcome));
        match outcome {
            Ok(v) => {
                self.stack.set(n - 1, Value::Integer(v));
                Ok(())
            },
            Err(e) => Err(e),
        }
    }
}

/// `div`: the quotient rounded towards zero.
pub fn divide(a: i64, b: i64) -> (result: Result<i64, InterpreterError>)
    ensures
        result == arith(Op::Div, a, b),
{
    if b == 0 {
        return Err(InterpreterError::DivByZero);
    }
    match a.checked_div(b) {
        Some(q) => Ok(q),
        None => Err(InterpreterError::Overflow),
    }
}

/// `mod`: the remainder of the division that rounds towards zero.
pub fn remainder(a: i64, b: i64) -> (result: Result<i64, InterpreterError>)
    ensures
        result == arith(Op::Mod, a, b),
{
    if b == 0 {
        return Err(InterpreterError::ModByZero);
    }
    match a.checked_rem(b) {
        Some(r) => Ok(r),
        None => Err(InterpreterError::Overflow),
    }
}

} // verus!
