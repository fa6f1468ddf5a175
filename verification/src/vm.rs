//! The stack machine that gives a genome its meaning.
//!
//! A run can be made in one go, with the arithmetic of this crate, or piece
//! by piece: then the machine stops before each arithmetic operation, hands
//! out the two operands, and goes on with the result that the caller hands
//! back.

use vstd::prelude::*;
use vstd::string::*;
use crate::arith::{compute, computed, Arith};
use crate::genome::{parse_register_index, register_index, REGISTER_COUNT};
use crate::models::{Genome, Instruction, InstructionView, Opcode};
use crate::number::Real;

verus! {

/// The encoding of 1e-12: a divisor nearer to zero than this is refused.
pub const EPS_DIVISOR: u64 = 0x3D71_9799_812D_EA11;

/// How long a run may go on.
#[derive(Clone, Copy, Debug)]
pub struct VmConfig {
    pub max_steps: usize,
}

impl Default for VmConfig {
    fn default() -> (cfg: VmConfig)
        ensures
            cfg.max_steps == 256,
    {
        VmConfig { max_steps: 256 }
    }
}

/// Why a run has no output.
#[derive(Clone, Copy, Debug, PartialEq, Eq, Structural)]
pub enum Fault {
    MissingArg,
    InvalidRegister,
    Underflow,
    DivNearZero,
    MaxStepsExceeded,
    UnknownOpcode,
    NonFiniteOutput,
}

impl Fault {
    /// The reason as an outcome words it.
    pub open spec fn text(self) -> Seq<char> {
        match self {
            Fault::MissingArg => "PUSH missing arg"@,
            Fault::InvalidRegister => "invalid register index"@,
            Fault::Underflow => "stack underflow"@,
            Fault::DivNearZero => "division by near-zero"@,
            Fault::MaxStepsExceeded => "max steps exceeded"@,
            Fault::UnknownOpcode => "unknown opcode"@,
            Fault::NonFiniteOutput => "non-finite output"@,
        }
    }

    /// No two faults are worded alike.
    pub proof fn lemma_texts_differ(self, other: Fault)
        requires
            self.text() == other.text(),
        ensures
            self == other,
    {
        reveal_strlit("PUSH missing arg");
        reveal_strlit("invalid register index");
        reveal_strlit("stack underflow");
        reveal_strlit("division by near-zero");
        reveal_strlit("max steps exceeded");
        reveal_strlit("unknown opcode");
        reveal_strlit("non-finite output");
        assert("PUSH missing arg"@.len() == 16 && "invalid register index"@.len() == 22);
        assert("stack underflow"@.len() == 15 && "division by near-zero"@.len() == 21);
        assert("max steps exceeded"@.len() == 18 && "unknown opcode"@.len() == 14);
        assert("non-finite output"@.len() == 17);
    }

    pub fn message(self) -> (reason: String)
        ensures
            reason@ == self.text(),
    {
        match self {
            Fault::MissingArg => String::from_str("PUSH missing arg"),
            Fault::InvalidRegister => String::from_str("invalid register index"),
            Fault::Underflow => String::from_str("stack underflow"),
            Fault::DivNearZero => String::from_str("division by near-zero"),
            Fault::MaxStepsExceeded => String::from_str("max steps exceeded"),
            Fault::UnknownOpcode => String::from_str("unknown opcode"),
            Fault::NonFiniteOutput => String::from_str("non-finite output"),
        }
    }
}

/// What a run ends with: an output, or the reason why there is none.
#[derive(Debug)]
pub enum VmOutcome {
    Valid { output: Real },
    Invalid { reason: String },
}

impl View for VmOutcome {
    type V = Result<Real, Seq<char>>;

    open spec fn view(&self) -> Result<Real, Seq<char>> {
        match self {
            VmOutcome::Valid { output } => Ok(*output),
            VmOutcome::Invalid { reason } => Err(reason@),
        }
    }
}

/// A machine at rest between two instructions.
#[derive(Debug)]
pub struct Machine {
    pub registers: Vec<Real>,
    pub stack: Vec<Real>,
    pub pc: usize,
    pub steps: usize,
    pub max_steps: usize,
}

/// What a machine holds, as plain values.
pub ghost struct MachineView {
    pub registers: Seq<Real>,
    pub stack: Seq<Real>,
    pub pc: int,
    pub steps: int,
    pub max_steps: int,
}

impl View for Machine {
    type V = MachineView;

    open spec fn view(&self) -> MachineView {
        MachineView {
            registers: self.registers@,
            stack: self.stack@,
            pc: self.pc as int,
            steps: self.steps as int,
            max_steps: self.max_steps as int,
        }
    }
}

impl MachineView {
    /// A machine has its four registers and has not overrun its budget.
    pub open spec fn wf(self) -> bool {
        &&& self.registers.len() == REGISTER_COUNT
        &&& 0 <= self.pc
        &&& 0 <= self.steps <= self.max_steps
    }

    /// The machine before the first instruction: the input in register 0, the
    /// other registers zero, nothing on the stack.
    pub open spec fn initial(x: Real, max_steps: int) -> MachineView {
        MachineView {
            registers: seq![x, Real { bits: 0 }, Real { bits: 0 }, Real { bits: 0 }],
            stack: Seq::empty(),
            pc: 0,
            steps: 0,
            max_steps,
        }
    }

    /// The machine once it has counted the instruction at `pc`.
    pub open spec fn counted(self) -> MachineView {
        MachineView { steps: self.steps + 1, ..self }
    }

    /// The machine moved on to the next instruction.
    pub open spec fn advanced(self) -> MachineView {
        MachineView { pc: self.pc + 1, ..self }
    }

    pub open spec fn with_stack(self, stack: Seq<Real>) -> MachineView {
        MachineView { stack, ..self }
    }

    /// The output of a machine that has stopped: the top of the stack, or
    /// register 0 under an empty stack; an output must be finite.
    pub open spec fn output(self) -> Result<Real, Seq<char>> {
        let value = if self.stack.len() > 0 {
            self.stack.last()
        } else {
            self.registers[0]
        };
        if value.finite() {
            Ok(value)
        } else {
            Err(Fault::NonFiniteOutput.text())
        }
    }

    /// The machine that goes on after the caller has supplied the result of
    /// the arithmetic operation it waited for.
    pub open spec fn resumed(self, value: Real) -> MachineView {
        self.with_stack(self.stack.push(value)).advanced()
    }
}

/// What one instruction does to a machine.
pub ghost enum Effect {
    /// The instruction is done and the machine goes on behind it.
    Next(MachineView),
    /// The machine stops where it is.
    Halt(MachineView),
    /// The run ends without an output.
    Fault(Fault),
    /// The two operands are off the stack; their result is awaited.
    Operands { machine: MachineView, op: Arith, a: Real, b: Real },
}

/// The operands of an arithmetic instruction: the top of the stack is `b`,
/// the value under it `a`.
pub open spec fn operands(m: MachineView, op: Arith) -> Effect {
    let n = m.stack.len() as int;
    if n < 2 {
        Effect::Fault(Fault::Underflow)
    } else if op == Arith::Div && m.stack[n - 1].within(Real { bits: EPS_DIVISOR }) {
        Effect::Fault(Fault::DivNearZero)
    } else {
        Effect::Operands {
            machine: m.counted().with_stack(m.stack.subrange(0, n - 2)),
            op,
            a: m.stack[n - 2],
            b: m.stack[n - 1],
        }
    }
}

/// The effect of the instruction `instr` on the machine `m`.
pub open spec fn dispatch(instr: InstructionView, m: MachineView) -> Effect {
    let n = m.stack.len() as int;
    match Opcode::named(instr.op) {
        None => Effect::Fault(Fault::UnknownOpcode),
        Some(Opcode::Push) => match instr.arg {
            Some(value) => Effect::Next(
                m.counted().with_stack(m.stack.push(value)).advanced(),
            ),
            None => Effect::Fault(Fault::MissingArg),
        },
        Some(Opcode::Load) => match register_index(instr.arg) {
            Some(index) => Effect::Next(
                m.counted().with_stack(m.stack.push(m.registers[index])).advanced(),
            ),
            None => Effect::Fault(Fault::InvalidRegister),
        },
        Some(Opcode::Store) => match register_index(instr.arg) {
            Some(index) => if n < 1 {
                Effect::Fault(Fault::Underflow)
            } else {
                Effect::Next(
                    MachineView {
                        registers: m.registers.update(index, m.stack[n - 1]),
                        ..m.counted().with_stack(m.stack.subrange(0, n - 1)).advanced()
                    },
                )
            },
            None => Effect::Fault(Fault::InvalidRegister),
        },
        Some(Opcode::Add) => operands(m, Arith::Add),
        Some(Opcode::Sub) => operands(m, Arith::Sub),
        Some(Opcode::Mul) => operands(m, Arith::Mul),
        Some(Opcode::Div) => operands(m, Arith::Div),
        Some(Opcode::Dup) => if n < 1 {
            Effect::Fault(Fault::Underflow)
        } else {
            Effect::Next(m.counted().with_stack(m.stack.push(m.stack[n - 1])).advanced())
        },
        Some(Opcode::Swap) => if n < 2 {
            Effect::Fault(Fault::Underflow)
        } else {
            Effect::Next(
                m.counted().with_stack(
                    m.stack.subrange(0, n - 2).push(m.stack[n - 1]).push(m.stack[n - 2]),
                ).advanced(),
            )
        },
        Some(Opcode::Pop) => if n < 1 {
            Effect::Fault(Fault::Underflow)
        } else {
            Effect::Next(m.counted().with_stack(m.stack.subrange(0, n - 1)).advanced())
        },
        Some(Opcode::Halt) => Effect::Halt(m.counted()),
        Some(Opcode::Nop) => Effect::Next(m.counted().advanced()),
    }
}

/// Where a run stands when it returns to the caller.
pub ghost enum ExecutionView {
    Finished { outcome: Result<Real, Seq<char>>, steps: int },
    Awaiting { machine: MachineView, op: Arith, a: Real, b: Real },
}

/// The run of `program` from the machine `m`, up to its end or to the next
/// arithmetic operation. Before each instruction the budget is looked at: a
/// machine that has used it up ends the run.
pub open spec fn run(program: Seq<InstructionView>, m: MachineView) -> ExecutionView
    decreases program.len() - m.pc,
{
    if m.pc < 0 || m.pc >= program.len() {
        ExecutionView::Finished { outcome: m.output(), steps: m.steps }
    } else if m.steps >= m.max_steps {
        ExecutionView::Finished {
            outcome: Err(Fault::MaxStepsExceeded.text()),
            steps: m.steps,
        }
    } else {
        match dispatch(program[m.pc], m) {
            Effect::Next(next) => run(program, next),
            Effect::Halt(last) => ExecutionView::Finished {
                outcome: last.output(),
                steps: last.steps,
            },
            Effect::Fault(fault) => ExecutionView::Finished {
                outcome: Err(fault.text()),
                steps: m.steps + 1,
            },
            Effect::Operands { machine, op, a, b } => ExecutionView::Awaiting {
                machine,
                op,
                a,
                b,
            },
        }
    }
}

/// How many values an operation takes off the stack, or needs on it.
pub open spec fn consumes(code: Opcode) -> int {
    match code {
        Opcode::Store | Opcode::Dup | Opcode::Pop => 1,
        Opcode::Add | Opcode::Sub | Opcode::Mul | Opcode::Div | Opcode::Swap => 2,
        _ => 0,
    }
}

/// The budget bounds the instructions executed: a run never counts more
/// steps than `max_steps`, wherever it returns to the caller.
pub proof fn lemma_steps_bounded(program: Seq<InstructionView>, m: MachineView)
    requires
        m.wf(),
    ensures
        match run(program, m) {
            ExecutionView::Finished { steps, .. } => m.steps <= steps <= m.max_steps,
            ExecutionView::Awaiting { machine, .. } => {
                &&& machine.wf()
                &&& m.steps < machine.steps <= m.max_steps
                &&& machine.max_steps == m.max_steps
            },
        },
    decreases program.len() - m.pc,
{
    if m.pc < program.len() && m.steps < m.max_steps {
        match dispatch(program[m.pc], m) {
            Effect::Next(next) => {
                lemma_steps_bounded(program, next);
            },
            _ => {},
        }
    }
}

/// A program of more instructions than the budget, none of which stops the
/// run, ends with the budget exceeded.
pub proof fn lemma_budget_exceeded(program: Seq<InstructionView>, m: MachineView)
    requires
        m.wf(),
        m.pc <= program.len(),
        program.len() - m.pc > m.max_steps - m.steps,
        forall|i: int| m.pc <= i < program.len() ==> Opcode::named(#[trigger] program[i].op)
            == Some(Opcode::Nop),
    ensures
        run(program, m) == (ExecutionView::Finished {
            outcome: Err(Fault::MaxStepsExceeded.text()),
            steps: m.max_steps,
        }),
    decreases program.len() - m.pc,
{
    if m.steps < m.max_steps {
        lemma_budget_exceeded(program, m.counted().advanced());
    }
}

/// The end of the whole run of `program` from the machine `m`, where the
/// caller answers every arithmetic operation by `arith`: the outcome, and
/// the number of instructions executed. (A run waits at an instruction of
/// the program, see [`lemma_awaits_within`]; the other case is there for
/// the recursion to be well founded, and never arises.)
pub open spec fn completed(
    program: Seq<InstructionView>,
    m: MachineView,
    arith: spec_fn(Arith, Real, Real) -> Real,
) -> (Result<Real, Seq<char>>, int)
    decreases program.len() - m.pc,
{
    match run(program, m) {
        ExecutionView::Finished { outcome, steps } => (outcome, steps),
        ExecutionView::Awaiting { machine, op, a, b } => if m.pc <= machine.pc < program.len() {
            completed(program, machine.resumed(arith(op, a, b)), arith)
        } else {
            (Err(Fault::MaxStepsExceeded.text()), machine.steps)
        },
    }
}

/// A run that waits for an arithmetic result waits at an instruction of the
/// program, not before the one it began at.
pub proof fn lemma_awaits_within(program: Seq<InstructionView>, m: MachineView)
    requires
        0 <= m.pc,
    ensures
        run(program, m) matches ExecutionView::Awaiting { machine, .. } ==> m.pc <= machine.pc
            < program.len(),
    decreases program.len() - m.pc,
{
    if m.pc < program.len() && m.steps < m.max_steps {
        match dispatch(program[m.pc], m) {
            Effect::Next(next) => {
                lemma_awaits_within(program, next);
            },
            _ => {},
        }
    }
}

/// The budget bounds the instructions of a whole run, however the
/// arithmetic comes out.
pub proof fn lemma_completed_bounded(
    program: Seq<InstructionView>,
    m: MachineView,
    arith: spec_fn(Arith, Real, Real) -> Real,
)
    requires
        m.wf(),
    ensures
        m.steps <= completed(program, m, arith).1 <= m.max_steps,
    decreases program.len() - m.pc,
{
    lemma_steps_bounded(program, m);
    lemma_awaits_within(program, m);
    match run(program, m) {
        ExecutionView::Finished { .. } => {},
        ExecutionView::Awaiting { machine, op, a, b } => {
            lemma_completed_bounded(program, machine.resumed(arith(op, a, b)), arith);
        },
    }
}

/// The outcome of the whole run of `program` on the input `x`, the
/// arithmetic being this crate's.
pub open spec fn outcome_of(program: Seq<InstructionView>, x: Real, max_steps: int) -> Result<
    Real,
    Seq<char>,
> {
    completed(program, MachineView::initial(x, max_steps), arithmetic()).0
}

/// This crate's arithmetic, as the function that answers a run's
/// operations.
pub open spec fn arithmetic() -> spec_fn(Arith, Real, Real) -> Real {
    |op: Arith, a: Real, b: Real| computed(op, a, b)
}

/// `PUSH a; HALT` gives `a`, whatever the input, where `a` is finite and the
/// budget allows the two instructions.
pub proof fn lemma_push_halt(program: Seq<InstructionView>, a: Real, x: Real, max_steps: int)
    requires
        program.len() == 2,
        Opcode::named(program[0].op) == Some(Opcode::Push),
        program[0].arg == Some(a),
        Opcode::named(program[1].op) == Some(Opcode::Halt),
        a.finite(),
        max_steps >= 2,
    ensures
        run(program, MachineView::initial(x, max_steps)) == (ExecutionView::Finished {
            outcome: Ok(a),
            steps: 2,
        }),
        outcome_of(program, x, max_steps) == Ok::<Real, Seq<char>>(a),
{
    let start = MachineView::initial(x, max_steps);
    let pushed = start.counted().with_stack(start.stack.push(a)).advanced();
    assert(dispatch(program[0], start) == Effect::Next(pushed));
    assert(run(program, start) == run(program, pushed));
    assert(dispatch(program[1], pushed) == Effect::Halt(pushed.counted()));
}

/// `LOAD 0; HALT` gives the input back, where the input is finite and the
/// budget allows the two instructions.
pub proof fn lemma_load_halt(program: Seq<InstructionView>, x: Real, max_steps: int)
    requires
        program.len() == 2,
        Opcode::named(program[0].op) == Some(Opcode::Load),
        register_index(program[0].arg) == Some(0int),
        Opcode::named(program[1].op) == Some(Opcode::Halt),
        x.finite(),
        max_steps >= 2,
    ensures
        run(program, MachineView::initial(x, max_steps)) == (ExecutionView::Finished {
            outcome: Ok(x),
            steps: 2,
        }),
        outcome_of(program, x, max_steps) == Ok::<Real, Seq<char>>(x),
{
    let start = MachineView::initial(x, max_steps);
    let loaded = start.counted().with_stack(start.stack.push(x)).advanced();
    assert(dispatch(program[0], start) == Effect::Next(loaded));
    assert(run(program, start) == run(program, loaded));
    assert(dispatch(program[1], loaded) == Effect::Halt(loaded.counted()));
}

/// An operation that finds fewer values on the stack than it consumes ends
/// the run with an underflow. (A `STORE` looks at its register first.)
pub proof fn lemma_underflow(
    program: Seq<InstructionView>,
    m: MachineView,
    code: Opcode,
    arith: spec_fn(Arith, Real, Real) -> Real,
)
    requires
        0 <= m.pc < program.len(),
        m.steps < m.max_steps,
        Opcode::named(program[m.pc].op) == Some(code),
        m.stack.len() < consumes(code),
        code == Opcode::Store ==> register_index(program[m.pc].arg) is Some,
    ensures
        dispatch(program[m.pc], m) == Effect::Fault(Fault::Underflow),
        run(program, m) == (ExecutionView::Finished {
            outcome: Err(Fault::Underflow.text()),
            steps: m.steps + 1,
        }),
        completed(program, m, arith).0 == Err::<Real, Seq<char>>(Fault::Underflow.text()),
{
}

/// A `DIV` whose divisor is nearer to zero than 1e-12 ends the run, whatever
/// the dividend.
pub proof fn lemma_div_near_zero(
    program: Seq<InstructionView>,
    m: MachineView,
    arith: spec_fn(Arith, Real, Real) -> Real,
)
    requires
        0 <= m.pc < program.len(),
        m.steps < m.max_steps,
        Opcode::named(program[m.pc].op) == Some(Opcode::Div),
        m.stack.len() >= 2,
        m.stack.last().within(Real { bits: EPS_DIVISOR }),
    ensures
        dispatch(program[m.pc], m) == Effect::Fault(Fault::DivNearZero),
        run(program, m) == (ExecutionView::Finished {
            outcome: Err(Fault::DivNearZero.text()),
            steps: m.steps + 1,
        }),
        completed(program, m, arith).0 == Err::<Real, Seq<char>>(Fault::DivNearZero.text()),
{
}

/// Where a run stands when it returns to the caller: at its end, with the
/// outcome and the number of instructions executed, or before an arithmetic
/// operation whose result the caller is to hand to [`resume`].
#[derive(Debug)]
pub enum Execution {
    Finished { outcome: VmOutcome, steps: usize },
    Awaiting { machine: Machine, op: Arith, a: Real, b: Real },
}

impl View for Execution {
    type V = ExecutionView;

    open spec fn view(&self) -> ExecutionView {
        match self {
            Execution::Finished { outcome, steps } => ExecutionView::Finished {
                outcome: outcome@,
                steps: *steps as int,
            },
            Execution::Awaiting { machine, op, a, b } => ExecutionView::Awaiting {
                machine: machine@,
                op: *op,
                a: *a,
                b: *b,
            },
        }
    }
}

/// A machine after one instruction, or the run's return to the caller.
enum Stepped {
    Next(Machine),
    Return(Execution),
}

fn invalid(fault: Fault, steps: usize) -> (e: Execution)
    ensures
        e@ == (ExecutionView::Finished { outcome: Err(fault.text()), steps: steps as int }),
{
    Execution::Finished { outcome: VmOutcome::Invalid { reason: fault.message() }, steps }
}

fn finish(machine: &Machine) -> (e: Execution)
    requires
        machine@.wf(),
    ensures
        e@ == (ExecutionView::Finished {
            outcome: machine@.output(),
            steps: machine.steps as int,
        }),
{
    let depth = machine.stack.len();
    let value = if depth > 0 {
        machine.stack[depth - 1]
    } else {
        machine.registers[0]
    };
    if value.is_finite() {
        Execution::Finished { outcome: VmOutcome::Valid { output: value }, steps: machine.steps }
    } else {
        invalid(Fault::NonFiniteOutput, machine.steps)
    }
}

/// Takes the two topmost values off the stack: the top is the second of the
/// pair. A stack with fewer than two values is left as it is.
pub fn pop_two(stack: &mut Vec<Real>) -> (pair: Option<(Real, Real)>)
    ensures
        match pair {
            Some((a, b)) => {
                let n = old(stack)@.len() as int;
                &&& n >= 2
                &&& a == old(stack)@[n - 2]
                &&& b == old(stack)@[n - 1]
                &&& final(stack)@ == old(stack)@.subrange(0, n - 2)
            },
            None => old(stack)@.len() < 2 && final(stack)@ == old(stack)@,
        },
{
    let depth = stack.len();
    if depth < 2 {
        return None;
    }
    let b = stack[depth - 1];
    let a = stack[depth - 2];
    stack.truncate(depth - 2);
    Some((a, b))
}

fn take_operands(machine: Machine, op: Arith) -> (e: Execution)
    requires
        machine@.wf(),
        machine.steps >= 1,
    ensures
        match operands(MachineView { steps: machine.steps - 1, ..machine@ }, op) {
            Effect::Operands { machine: m, op: o, a, b } => e@ == (ExecutionView::Awaiting {
                machine: m,
                op: o,
                a,
                b,
            }) && m.wf(),
            Effect::Fault(fault) => e@ == (ExecutionView::Finished {
                outcome: Err(fault.text()),
                steps: machine.steps as int,
            }),
            _ => false,
        },
{
    let mut m = machine;
    match pop_two(&mut m.stack) {
        Some((a, b)) => {
            if op == Arith::Div && b.abs_below(Real::from_bits(EPS_DIVISOR)) {
                invalid(Fault::DivNearZero, m.steps)
            } else {
                Execution::Awaiting { machine: m, op, a, b }
            }
        },
        None => invalid(Fault::Underflow, m.steps),
    }
}

fn step(instr: &Instruction, machine: Machine) -> (stepped: Stepped)
    requires
        machine@.wf(),
        machine.steps < machine.max_steps,
        machine.pc < usize::MAX,
    ensures
        match dispatch(instr@, machine@) {
            Effect::Next(next) => stepped matches Stepped::Next(m) && m@ == next && next.wf(),
            Effect::Halt(last) => stepped matches Stepped::Return(e) && e@ == (
            ExecutionView::Finished { outcome: last.output(), steps: last.steps }),
            Effect::Fault(fault) => stepped matches Stepped::Return(e) && e@ == (
            ExecutionView::Finished { outcome: Err(fault.text()), steps: machine.steps + 1 }),
            Effect::Operands { machine: m, op, a, b } => stepped matches Stepped::Return(e) && e@
                == (ExecutionView::Awaiting { machine: m, op, a, b }) && m.wf(),
        },
{
    let mut m = machine;
    m.steps = m.steps + 1;
    let depth = m.stack.len();
    match Opcode::parse(instr.op.as_str()) {
        None => Stepped::Return(invalid(Fault::UnknownOpcode, m.steps)),
        Some(Opcode::Push) => match instr.arg {
            Some(value) => {
                m.stack.push(value);
                m.pc = m.pc + 1;
                Stepped::Next(m)
            },
            None => Stepped::Return(invalid(Fault::MissingArg, m.steps)),
        },
        Some(Opcode::Load) => match parse_register_index(instr.arg) {
            Ok(index) => {
                let value = m.registers[index];
                m.stack.push(value);
                m.pc = m.pc + 1;
                Stepped::Next(m)
            },
            Err(reason) => Stepped::Return(
                Execution::Finished { outcome: VmOutcome::Invalid { reason }, steps: m.steps },
            ),
        },
        Some(Opcode::Store) => match parse_register_index(instr.arg) {
            Ok(index) => match m.stack.pop() {
                Some(value) => {
                    m.registers.set(index, value);
                    m.pc = m.pc + 1;
                    assert(m.stack@ =~= machine.stack@.subrange(0, depth - 1));
                    Stepped::Next(m)
                },
                None => Stepped::Return(invalid(Fault::Underflow, m.steps)),
            },
            Err(reason) => Stepped::Return(
                Execution::Finished { outcome: VmOutcome::Invalid { reason }, steps: m.steps },
            ),
        },
        Some(Opcode::Add) => Stepped::Return(take_operands(m, Arith::Add)),
        Some(Opcode::Sub) => Stepped::Return(take_operands(m, Arith::Sub)),
        Some(Opcode::Mul) => Stepped::Return(take_operands(m, Arith::Mul)),
        Some(Opcode::Div) => Stepped::Return(take_operands(m, Arith::Div)),
        Some(Opcode::Dup) => {
            if depth < 1 {
                Stepped::Return(invalid(Fault::Underflow, m.steps))
            } else {
                let top = m.stack[depth - 1];
                m.stack.push(top);
                m.pc = m.pc + 1;
                Stepped::Next(m)
            }
        },
        Some(Opcode::Swap) => match pop_two(&mut m.stack) {
            Some((a, b)) => {
                m.stack.push(b);
                m.stack.push(a);
                m.pc = m.pc + 1;
                Stepped::Next(m)
            },
            None => Stepped::Return(invalid(Fault::Underflow, m.steps)),
        },
        Some(Opcode::Pop) => match m.stack.pop() {
            Some(_) => {
                m.pc = m.pc + 1;
                assert(m.stack@ =~= machine.stack@.subrange(0, depth - 1));
                Stepped::Next(m)
            },
            None => Stepped::Return(invalid(Fault::Underflow, m.steps)),
        },
        Some(Opcode::Halt) => Stepped::Return(finish(&m)),
        Some(Opcode::Nop) => {
            m.pc = m.pc + 1;
            Stepped::Next(m)
        },
    }
}

fn proceed(genome: &Genome, machine: Machine) -> (e: Execution)
    requires
        machine@.wf(),
    ensures
        e@ == run(genome@, machine@),
        e matches Execution::Awaiting { machine: m, .. } ==> m@.wf() && m.pc < genome@.len(),
{
    let ghost start = machine@;
    let mut m = machine;
    while m.pc < genome.instructions.len()
        invariant
            m@.wf(),
            start == machine@,
            genome@.len() == genome.instructions@.len(),
            run(genome@, m@) == run(genome@, start),
        decreases genome.instructions.len() - m.pc,
    {
        if m.steps >= m.max_steps {
            return invalid(Fault::MaxStepsExceeded, m.steps);
        }
        let ghost before = m@;
        let instr = &genome.instructions[m.pc];
        assert(genome@[m.pc as int] == instr@);
        match step(instr, m) {
            Stepped::Next(next) => {
                m = next;
            },
            Stepped::Return(e) => {
                return e;
            },
        }
    }
    finish(&m)
}

/// Begins a run of `genome` on the input `x`, and goes on with it until it
/// ends or needs the result of an arithmetic operation.
pub fn start(genome: &Genome, x: Real, cfg: VmConfig) -> (e: Execution)
    ensures
        e@ == run(genome@, MachineView::initial(x, cfg.max_steps as int)),
        match e {
            Execution::Finished { steps, .. } => steps <= cfg.max_steps,
            Execution::Awaiting { machine, .. } => {
                &&& machine@.wf()
                &&& machine.pc < genome@.len()
                &&& 0 < machine.steps <= cfg.max_steps
                &&& machine.max_steps == cfg.max_steps
            },
        },
{
    proof {
        lemma_steps_bounded(genome@, MachineView::initial(x, cfg.max_steps as int));
    }
    let mut registers: Vec<Real> = Vec::new();
    registers.push(x);
    registers.push(Real::from_bits(0));
    registers.push(Real::from_bits(0));
    registers.push(Real::from_bits(0));
    let machine = Machine {
        registers,
        stack: Vec::new(),
        pc: 0,
        steps: 0,
        max_steps: cfg.max_steps,
    };
    assert(machine@.registers =~= MachineView::initial(x, cfg.max_steps as int).registers);
    assert(machine@.stack =~= MachineView::initial(x, cfg.max_steps as int).stack);
    proceed(genome, machine)
}

/// Goes on with a run that waited for the result of an arithmetic
/// operation: `value` takes the operands' place on the stack.
pub fn resume(genome: &Genome, machine: Machine, value: Real) -> (e: Execution)
    requires
        machine@.wf(),
        machine.pc < genome@.len(),
    ensures
        e@ == run(genome@, machine@.resumed(value)),
        match e {
            Execution::Finished { steps, .. } => machine.steps <= steps <= machine.max_steps,
            Execution::Awaiting { machine: m, .. } => {
                &&& m@.wf()
                &&& m.pc < genome@.len()
                &&& machine.steps < m.steps <= machine.max_steps
                &&& m.max_steps == machine.max_steps
            },
        },
{
    proof {
        lemma_steps_bounded(genome@, machine@.resumed(value));
    }
    let mut m = machine;
    assert(m.pc < genome.instructions.len());
    m.stack.push(value);
    m.pc = m.pc + 1;
    proceed(genome, m)
}

/// How far a run is from its end at most: the instructions from the one it
/// waits at.
spec fn distance(e: ExecutionView, length: int) -> int {
    match e {
        ExecutionView::Finished { .. } => 0,
        ExecutionView::Awaiting { machine, .. } => length - machine.pc,
    }
}

/// Runs `genome` on the input `x` to its end: the output, or the reason why
/// there is none.
pub fn run_genome(genome: &Genome, x: Real, cfg: VmConfig) -> (outcome: VmOutcome)
    ensures
        outcome@ == outcome_of(genome@, x, cfg.max_steps as int),
{
    let ghost whole = outcome_of(genome@, x, cfg.max_steps as int);
    let mut e = start(genome, x, cfg);
    loop
        invariant
            whole == outcome_of(genome@, x, cfg.max_steps as int),
            match e {
                Execution::Finished { outcome, .. } => outcome@ == whole,
                Execution::Awaiting { machine, op, a, b } => {
                    &&& machine@.wf()
                    &&& machine.pc < genome@.len()
                    &&& whole == completed(
                        genome@,
                        machine@.resumed(computed(op, a, b)),
                        arithmetic(),
                    ).0
                },
            },
        decreases distance(e@, genome@.len() as int),
    {
        match e {
            Execution::Finished { outcome, .. } => {
                return outcome;
            },
            Execution::Awaiting { machine, op, a, b } => {
                proof {
                    lemma_awaits_within(genome@, machine@.resumed(computed(op, a, b)));
                }
                e = resume(genome, machine, compute(op, a, b));
            },
        }
    }
}

} // verus!
