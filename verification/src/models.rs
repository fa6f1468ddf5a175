//! The values that the engine works on: instructions, genomes, run
//! configurations and the read-only views of a run.

use vstd::prelude::*;
use vstd::string::*;
use crate::number::Real;

verus! {

/// The operations of the stack machine.
#[derive(Clone, Copy, Debug, PartialEq, Eq, Structural)]
pub enum Opcode {
    Push,
    Load,
    Store,
    Add,
    Sub,
    Mul,
    Div,
    Dup,
    Swap,
    Pop,
    Halt,
    Nop,
}

/// How many operations there are.
pub const OPCODE_COUNT: usize = 12;

impl Opcode {
    /// The symbol that an instruction carries for this operation.
    pub open spec fn symbol(self) -> Seq<char> {
        match self {
            Opcode::Push => "PUSH"@,
            Opcode::Load => "LOAD"@,
            Opcode::Store => "STORE"@,
            Opcode::Add => "ADD"@,
            Opcode::Sub => "SUB"@,
            Opcode::Mul => "MUL"@,
            Opcode::Div => "DIV"@,
            Opcode::Dup => "DUP"@,
            Opcode::Swap => "SWAP"@,
            Opcode::Pop => "POP"@,
            Opcode::Halt => "HALT"@,
            Opcode::Nop => "NOP"@,
        }
    }

    /// The operation at a position of the fixed list of symbols.
    pub open spec fn at(index: int) -> Opcode {
        if index == 0 {
            Opcode::Push
        } else if index == 1 {
            Opcode::Load
        } else if index == 2 {
            Opcode::Store
        } else if index == 3 {
            Opcode::Add
        } else if index == 4 {
            Opcode::Sub
        } else if index == 5 {
            Opcode::Mul
        } else if index == 6 {
            Opcode::Div
        } else if index == 7 {
            Opcode::Dup
        } else if index == 8 {
            Opcode::Swap
        } else if index == 9 {
            Opcode::Pop
        } else if index == 10 {
            Opcode::Halt
        } else {
            Opcode::Nop
        }
    }

    /// The operation that a symbol names, if it names one.
    pub open spec fn named(symbol: Seq<char>) -> Option<Opcode> {
        if symbol == "PUSH"@ {
            Some(Opcode::Push)
        } else if symbol == "LOAD"@ {
            Some(Opcode::Load)
        } else if symbol == "STORE"@ {
            Some(Opcode::Store)
        } else if symbol == "ADD"@ {
            Some(Opcode::Add)
        } else if symbol == "SUB"@ {
            Some(Opcode::Sub)
        } else if symbol == "MUL"@ {
            Some(Opcode::Mul)
        } else if symbol == "DIV"@ {
            Some(Opcode::Div)
        } else if symbol == "DUP"@ {
            Some(Opcode::Dup)
        } else if symbol == "SWAP"@ {
            Some(Opcode::Swap)
        } else if symbol == "POP"@ {
            Some(Opcode::Pop)
        } else if symbol == "HALT"@ {
            Some(Opcode::Halt)
        } else if symbol == "NOP"@ {
            Some(Opcode::Nop)
        } else {
            None
        }
    }

    /// Each symbol names its own operation: the twelve symbols differ.
    pub proof fn lemma_symbol_named(self)
        ensures
            Opcode::named(self.symbol()) == Some(self),
    {
        reveal_strlit("PUSH");
        reveal_strlit("LOAD");
        reveal_strlit("STORE");
        reveal_strlit("ADD");
        reveal_strlit("SUB");
        reveal_strlit("MUL");
        reveal_strlit("DIV");
        reveal_strlit("DUP");
        reveal_strlit("SWAP");
        reveal_strlit("POP");
        reveal_strlit("HALT");
        reveal_strlit("NOP");
        assert("PUSH"@[0] == 'P' && "LOAD"@[0] == 'L' && "SWAP"@[0] == 'S' && "HALT"@[0] == 'H');
        assert("ADD"@[0] == 'A' && "SUB"@[0] == 'S' && "MUL"@[0] == 'M' && "POP"@[0] == 'P'
            && "NOP"@[0] == 'N');
        assert("DIV"@[1] == 'I' && "DUP"@[1] == 'U');
        assert("PUSH"@.len() == 4 && "LOAD"@.len() == 4 && "SWAP"@.len() == 4 && "HALT"@.len()
            == 4 && "STORE"@.len() == 5);
        assert("ADD"@.len() == 3 && "SUB"@.len() == 3 && "MUL"@.len() == 3 && "DIV"@.len() == 3
            && "DUP"@.len() == 3 && "POP"@.len() == 3 && "NOP"@.len() == 3);
    }

    pub fn from_index(index: usize) -> (code: Opcode)
        requires
            index < OPCODE_COUNT,
        ensures
            code == Opcode::at(index as int),
    {
        if index == 0 {
            Opcode::Push
        } else if index == 1 {
            Opcode::Load
        } else if index == 2 {
            Opcode::Store
        } else if index == 3 {
            Opcode::Add
        } else if index == 4 {
            Opcode::Sub
        } else if index == 5 {
            Opcode::Mul
        } else if index == 6 {
            Opcode::Div
        } else if index == 7 {
            Opcode::Dup
        } else if index == 8 {
            Opcode::Swap
        } else if index == 9 {
            Opcode::Pop
        } else if index == 10 {
            Opcode::Halt
        } else {
            Opcode::Nop
        }
    }

    pub fn name(self) -> (text: String)
        ensures
            text@ == self.symbol(),
    {
        match self {
            Opcode::Push => String::from_str("PUSH"),
            Opcode::Load => String::from_str("LOAD"),
            Opcode::Store => String::from_str("STORE"),
            Opcode::Add => String::from_str("ADD"),
            Opcode::Sub => String::from_str("SUB"),
            Opcode::Mul => String::from_str("MUL"),
            Opcode::Div => String::from_str("DIV"),
            Opcode::Dup => String::from_str("DUP"),
            Opcode::Swap => String::from_str("SWAP"),
            Opcode::Pop => String::from_str("POP"),
            Opcode::Halt => String::from_str("HALT"),
            Opcode::Nop => String::from_str("NOP"),
        }
    }

    pub fn parse(symbol: &str) -> (code: Option<Opcode>)
        ensures
            code == Opcode::named(symbol@),
    {
        if same_text(symbol, "PUSH") {
            Some(Opcode::Push)
        } else if same_text(symbol, "LOAD") {
            Some(Opcode::Load)
        } else if same_text(symbol, "STORE") {
            Some(Opcode::Store)
        } else if same_text(symbol, "ADD") {
            Some(Opcode::Add)
        } else if same_text(symbol, "SUB") {
            Some(Opcode::Sub)
        } else if same_text(symbol, "MUL") {
            Some(Opcode::Mul)
        } else if same_text(symbol, "DIV") {
            Some(Opcode::Div)
        } else if same_text(symbol, "DUP") {
            Some(Opcode::Dup)
        } else if same_text(symbol, "SWAP") {
            Some(Opcode::Swap)
        } else if same_text(symbol, "POP") {
            Some(Opcode::Pop)
        } else if same_text(symbol, "HALT") {
            Some(Opcode::Halt)
        } else if same_text(symbol, "NOP") {
            Some(Opcode::Nop)
        } else {
            None
        }
    }
}

/// `==` of `str`: true exactly when the two texts hold the same characters
/// in the same order.
#[verifier::external_body]
pub(crate) fn same_text(a: &str, b: &str) -> (same: bool)
    ensures
        same == (a@ == b@),
{
    a == b
}

/// One instruction: a symbol and, for some symbols, a number.
#[derive(Debug)]
pub struct Instruction {
    pub op: String,
    pub arg: Option<Real>,
}

/// What an instruction holds, as plain values.
pub ghost struct InstructionView {
    pub op: Seq<char>,
    pub arg: Option<Real>,
}

impl View for Instruction {
    type V = InstructionView;

    open spec fn view(&self) -> InstructionView {
        InstructionView { op: self.op@, arg: self.arg }
    }
}

impl Clone for Instruction {
    fn clone(&self) -> (copy: Instruction)
        ensures
            copy == *self,
    {
        Instruction { op: self.op.clone(), arg: self.arg }
    }
}

/// A program for the stack machine.
#[derive(Debug)]
pub struct Genome {
    pub instructions: Vec<Instruction>,
}

/// The instructions of a sequence, each as plain values.
pub open spec fn instruction_views(instructions: Seq<Instruction>) -> Seq<InstructionView> {
    Seq::new(instructions.len(), |i: int| instructions[i]@)
}

impl View for Genome {
    type V = Seq<InstructionView>;

    open spec fn view(&self) -> Seq<InstructionView> {
        instruction_views(self.instructions@)
    }
}

impl Clone for Genome {
    fn clone(&self) -> (copy: Genome)
        ensures
            copy@ == self@,
    {
        let mut instructions: Vec<Instruction> = Vec::new();
        let mut i: usize = 0;
        while i < self.instructions.len()
            invariant
                i <= self.instructions.len(),
                instructions@.len() == i,
                forall|j: int| 0 <= j < i ==> instructions@[j]@ == self.instructions@[j]@,
            decreases self.instructions.len() - i,
        {
            instructions.push(self.instructions[i].clone());
            i += 1;
        }
        let copy = Genome { instructions };
        assert(copy@ =~= self@);
        copy
    }
}

/// What a run is created with.
#[derive(Debug)]
pub struct RunConfig {
    pub seed: i64,
    pub population: i64,
    pub generations: i64,
    pub mutation_rate: Real,
    pub task: String,
}

/// What a configuration holds, as plain values.
pub ghost struct RunConfigView {
    pub seed: i64,
    pub population: i64,
    pub generations: i64,
    pub mutation_rate: Real,
    pub task: Seq<char>,
}

impl View for RunConfig {
    type V = RunConfigView;

    open spec fn view(&self) -> RunConfigView {
        RunConfigView {
            seed: self.seed,
            population: self.population,
            generations: self.generations,
            mutation_rate: self.mutation_rate,
            task: self.task@,
        }
    }
}

impl Clone for RunConfig {
    fn clone(&self) -> (copy: RunConfig)
        ensures
            copy == *self,
    {
        RunConfig {
            seed: self.seed,
            population: self.population,
            generations: self.generations,
            mutation_rate: self.mutation_rate,
            task: self.task.clone(),
        }
    }
}

/// A run as its readers see it.
#[derive(Debug)]
pub struct RunState {
    pub run_id: String,
    pub generation: i64,
    pub best_fitness: Real,
    pub best_genome: Genome,
    pub seed: u64,
    pub population: u32,
    pub generations: u32,
    pub mutation_rate: Real,
    pub task: String,
}

/// What a run's state holds, as plain values.
pub ghost struct RunStateView {
    pub run_id: Seq<char>,
    pub generation: i64,
    pub best_fitness: Real,
    pub best_genome: Seq<InstructionView>,
    pub seed: u64,
    pub population: u32,
    pub generations: u32,
    pub mutation_rate: Real,
    pub task: Seq<char>,
}

impl View for RunState {
    type V = RunStateView;

    open spec fn view(&self) -> RunStateView {
        RunStateView {
            run_id: self.run_id@,
            generation: self.generation,
            best_fitness: self.best_fitness,
            best_genome: self.best_genome@,
            seed: self.seed,
            population: self.population,
            generations: self.generations,
            mutation_rate: self.mutation_rate,
            task: self.task@,
        }
    }
}

/// The best fitness that a run had reached at one generation.
#[derive(Clone, Copy, Debug)]
pub struct RunHistoryPoint {
    pub generation: u32,
    pub best_fitness: Real,
}

/// A run's history as its readers see it.
#[derive(Debug)]
pub struct RunHistoryResponse {
    pub run_id: String,
    pub task: String,
    pub points: Vec<RunHistoryPoint>,
}

/// A request to step a run several times.
#[derive(Clone, Copy, Debug)]
pub struct RunAdvanceRequest {
    pub steps: u32,
}

} // verus!
