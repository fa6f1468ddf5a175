//! Genomes: how their instructions are drawn and how a genome is mutated.

use vstd::prelude::*;
use vstd::string::*;
use rand::rngs::StdRng;
use crate::arith::{compute, computed, Arith};
use crate::models::{
    instruction_views, Genome, Instruction, InstructionView, Opcode, OPCODE_COUNT,
};
use crate::number::{Real, MINUS_ONE, MINUS_TEN, ONE, TEN, THREE, TWO, ZERO};
use crate::rng::{gen_range_i32, gen_range_inclusive, gen_range_usize};

verus! {

/// How many registers the stack machine has.
pub const REGISTER_COUNT: usize = 4;

/// The least length of a freshly drawn genome.
pub const MIN_LEN: usize = 8;

/// The greatest length of a freshly drawn genome.
pub const MAX_LEN: usize = 32;

/// The greatest length of any genome.
pub const ABS_MAX_LEN: usize = 64;

/// The register that an argument selects: the numbers 0, 1, 2 and 3 select a
/// register, and nothing else does.
pub open spec fn register_index(arg: Option<Real>) -> Option<int> {
    match arg {
        Some(value) => {
            if value.same(Real { bits: ZERO }) {
                Some(0int)
            } else if value.same(Real { bits: ONE }) {
                Some(1int)
            } else if value.same(Real { bits: TWO }) {
                Some(2int)
            } else if value.same(Real { bits: THREE }) {
                Some(3int)
            } else {
                None
            }
        },
        None => None,
    }
}

/// The number that selects a register.
pub open spec fn register_number(index: int) -> Real {
    if index == 0 {
        Real { bits: ZERO }
    } else if index == 1 {
        Real { bits: ONE }
    } else if index == 2 {
        Real { bits: TWO }
    } else {
        Real { bits: THREE }
    }
}

/// A register's number selects that register.
pub proof fn lemma_register_number_selects(index: int)
    requires
        0 <= index < REGISTER_COUNT,
    ensures
        register_index(Some(register_number(index))) == Some(index),
{
}

/// Reads an argument as a register index.
pub fn parse_register_index(arg: Option<Real>) -> (parsed: Result<usize, String>)
    ensures
        match parsed {
            Ok(index) => register_index(arg) == Some(index as int) && index < REGISTER_COUNT,
            Err(reason) => register_index(arg) is None && reason@ == "invalid register index"@,
        },
{
    match arg {
        Some(value) => {
            if value.equals(Real::from_bits(ZERO)) {
                Ok(0)
            } else if value.equals(Real::from_bits(ONE)) {
                Ok(1)
            } else if value.equals(Real::from_bits(TWO)) {
                Ok(2)
            } else if value.equals(Real::from_bits(THREE)) {
                Ok(3)
            } else {
                Err(String::from_str("invalid register index"))
            }
        },
        None => Err(String::from_str("invalid register index")),
    }
}

/// The number that selects a register.
pub fn register_real(index: usize) -> (value: Real)
    requires
        index < REGISTER_COUNT,
    ensures
        value == register_number(index as int),
{
    if index == 0 {
        Real::from_bits(ZERO)
    } else if index == 1 {
        Real::from_bits(ONE)
    } else if index == 2 {
        Real::from_bits(TWO)
    } else {
        Real::from_bits(THREE)
    }
}

/// A number that the caller is asked to draw, uniformly from `[low, high)`.
/// The generator it is drawn from is the one that the request was made
/// with, and the draw is made before any other.
#[derive(Clone, Copy, Debug)]
pub struct RealRequest {
    pub low: Real,
    pub high: Real,
}

/// The request for the argument of a `PUSH`: a number from `[-10, 10)`.
pub open spec fn push_request() -> RealRequest {
    RealRequest { low: Real { bits: MINUS_TEN }, high: Real { bits: TEN } }
}

/// The request for the noise of a tweak: a number from `[-1, 1)`.
pub open spec fn noise_request() -> RealRequest {
    RealRequest { low: Real { bits: MINUS_ONE }, high: Real { bits: ONE } }
}

/// The sum that a tweak makes: the argument with the noise added; an
/// argument that is missing counts as zero.
pub open spec fn tweak_sum(arg: Option<Real>, noise: Real) -> Real {
    let base = match arg {
        Some(value) => value,
        None => Real { bits: ZERO },
    };
    computed(Arith::Add, base, noise)
}

/// A tweaked argument: the tweak's sum, clamped to `[-10, 10]`.
pub open spec fn tweaked(arg: Option<Real>, noise: Real) -> Real {
    tweak_sum(arg, noise).clamped(Real { bits: MINUS_TEN }, Real { bits: TEN })
}

pub fn tweak(arg: Option<Real>, noise: Real) -> (value: Real)
    ensures
        value == tweaked(arg, noise),
{
    let base = match arg {
        Some(value) => value,
        None => Real::from_bits(ZERO),
    };
    compute(Arith::Add, base, noise).clamp(Real::from_bits(MINUS_TEN), Real::from_bits(TEN))
}

/// Makes a tweak and tests its sum: the tweaked argument, which is finite,
/// where the sum is a number, and nothing where it is not.
pub fn try_tweak(arg: Option<Real>, noise: Real) -> (value: Option<Real>)
    ensures
        match value {
            Some(made) => !tweak_sum(arg, noise).nan() && made == tweaked(arg, noise)
                && made.finite(),
            None => tweak_sum(arg, noise).nan(),
        },
{
    let base = match arg {
        Some(value) => value,
        None => Real::from_bits(ZERO),
    };
    let sum = compute(Arith::Add, base, noise);
    if sum.is_nan() {
        None
    } else {
        Some(sum.clamp(Real::from_bits(MINUS_TEN), Real::from_bits(TEN)))
    }
}

/// Whether an instruction is well formed: a `PUSH` carries a finite number,
/// a `LOAD` or `STORE` the number of a register, any other operation nothing.
pub open spec fn well_formed(instr: InstructionView) -> bool {
    match Opcode::named(instr.op) {
        Some(Opcode::Push) => instr.arg matches Some(value) && value.finite(),
        Some(Opcode::Load) | Some(Opcode::Store) => register_index(instr.arg) is Some,
        Some(_) => instr.arg is None,
        None => false,
    }
}

/// The `PUSH` instruction with the argument `value`.
pub open spec fn push_of(value: Real) -> InstructionView {
    InstructionView { op: Opcode::Push.symbol(), arg: Some(value) }
}

/// The instruction that the operation `code` makes with a register drawn for
/// it: a `LOAD` or `STORE` carries the register's number, any other operation
/// nothing.
pub open spec fn plain_instruction(code: Opcode, register: int) -> InstructionView {
    InstructionView {
        op: code.symbol(),
        arg: if code == Opcode::Load || code == Opcode::Store {
            Some(register_number(register))
        } else {
            None
        },
    }
}

/// A freshly drawn instruction: whole, or a `PUSH` that waits for its
/// argument.
#[derive(Debug)]
pub enum Slot {
    Ready(Instruction),
    Push,
}

/// What a slot holds, as plain values.
pub ghost enum SlotView {
    Ready(InstructionView),
    Push,
}

impl View for Slot {
    type V = SlotView;

    open spec fn view(&self) -> SlotView {
        match self {
            Slot::Ready(instr) => SlotView::Ready(instr@),
            Slot::Push => SlotView::Push,
        }
    }
}

impl SlotView {
    /// Whether the slot is one that a draw can give: a waiting `PUSH`, or an
    /// instruction of another operation with what that operation carries.
    pub open spec fn drawn(self) -> bool {
        match self {
            SlotView::Push => true,
            SlotView::Ready(instr) => exists|code: Opcode, register: int|
                code != Opcode::Push && 0 <= register < REGISTER_COUNT && instr
                    == #[trigger] plain_instruction(code, register),
        }
    }

    /// The instruction that the slot becomes once the number asked for is
    /// there.
    pub open spec fn filled(self, value: Real) -> InstructionView {
        match self {
            SlotView::Ready(instr) => instr,
            SlotView::Push => push_of(value),
        }
    }
}

/// The instruction for an operation and the register drawn for it.
pub fn make_instruction(code: Opcode, register: usize) -> (instr: Instruction)
    requires
        register < REGISTER_COUNT,
    ensures
        instr@ == plain_instruction(code, register as int),
{
    let arg = match code {
        Opcode::Load | Opcode::Store => Some(register_real(register)),
        _ => None,
    };
    Instruction { op: code.name(), arg }
}

/// The `PUSH` instruction with the argument `value`.
pub fn make_push(value: Real) -> (instr: Instruction)
    ensures
        instr@ == push_of(value),
{
    Instruction { op: Opcode::Push.name(), arg: Some(value) }
}

/// The slot for a drawn operation and, where it is a `LOAD` or `STORE`, the
/// register drawn for it: a `PUSH` waits for its argument.
pub open spec fn slot_of(code: Opcode, register: int) -> SlotView {
    if code == Opcode::Push {
        SlotView::Push
    } else {
        SlotView::Ready(plain_instruction(code, register))
    }
}

/// The slot for a drawn operation and the register drawn for it.
pub fn make_slot(code: Opcode, register: usize) -> (slot: Slot)
    requires
        register < REGISTER_COUNT,
    ensures
        slot@ == slot_of(code, register as int),
        slot@.drawn(),
{
    match code {
        Opcode::Push => Slot::Push,
        _ => {
            let instr = make_instruction(code, register);
            assert(instr@ == plain_instruction(code, register as int));
            Slot::Ready(instr)
        },
    }
}

/// Draws an instruction: first the operation, each of the twelve alike; then,
/// for a `LOAD` or `STORE`, the register. The argument of a `PUSH` is not
/// drawn here: the slot waits for it.
pub fn random_instruction(rng: &mut StdRng) -> (slot: Slot)
    ensures
        slot@.drawn(),
{
    let code = Opcode::from_index(gen_range_usize(rng, OPCODE_COUNT));
    let register = match code {
        Opcode::Load | Opcode::Store => gen_range_usize(rng, REGISTER_COUNT),
        _ => 0,
    };
    make_slot(code, register)
}

/// What a draw gives is well formed, a `PUSH` once it has a finite argument.
pub proof fn lemma_drawn_well_formed(slot: SlotView, value: Real)
    requires
        slot.drawn(),
        value.finite(),
    ensures
        well_formed(slot.filled(value)),
{
    match slot {
        SlotView::Push => {
            Opcode::Push.lemma_symbol_named();
        },
        SlotView::Ready(instr) => {
            let (code, register) = choose|code: Opcode, register: int|
                code != Opcode::Push && 0 <= register < REGISTER_COUNT && instr
                    == #[trigger] plain_instruction(code, register);
            code.lemma_symbol_named();
            lemma_register_number_selects(register);
        },
    }
}

/// Whether every instruction of a sequence is well formed.
pub open spec fn all_well_formed(instructions: Seq<InstructionView>) -> bool {
    forall|i: int| 0 <= i < instructions.len() ==> well_formed(#[trigger] instructions[i])
}

/// Whether an instruction is well formed.
pub fn is_well_formed(instr: &Instruction) -> (well: bool)
    ensures
        well == well_formed(instr@),
{
    match Opcode::parse(instr.op.as_str()) {
        Some(Opcode::Push) => match instr.arg {
            Some(value) => value.is_finite(),
            None => false,
        },
        Some(Opcode::Load) | Some(Opcode::Store) => parse_register_index(instr.arg).is_ok(),
        Some(_) => instr.arg.is_none(),
        None => false,
    }
}

/// Whether every instruction of a genome is well formed.
pub fn is_all_well_formed(genome: &Genome) -> (well: bool)
    ensures
        well == all_well_formed(genome@),
{
    let mut i: usize = 0;
    while i < genome.instructions.len()
        invariant
            i <= genome.instructions@.len(),
            genome@.len() == genome.instructions@.len(),
            forall|j: int| 0 <= j < i ==> well_formed(#[trigger] genome@[j]),
        decreases genome.instructions@.len() - i,
    {
        assert(genome@[i as int] == genome.instructions@[i as int]@);
        if !is_well_formed(&genome.instructions[i]) {
            return false;
        }
        i += 1;
    }
    true
}

/// A genome in the making: the instructions drawn so far, and the length
/// drawn for it. While it is shorter than that, its next instruction is a
/// `PUSH` whose argument is awaited.
#[derive(Debug)]
pub struct GenomeDraft {
    pub instructions: Vec<Instruction>,
    pub length: usize,
}

impl View for GenomeDraft {
    type V = Seq<InstructionView>;

    open spec fn view(&self) -> Seq<InstructionView> {
        instruction_views(self.instructions@)
    }
}

impl GenomeDraft {
    /// The draft is no longer than the length drawn for it, which is one of
    /// a fresh genome.
    pub open spec fn wf(&self) -> bool {
        &&& MIN_LEN <= self.length <= MAX_LEN
        &&& self.instructions@.len() <= self.length
    }

    pub open spec fn complete(&self) -> bool {
        self.instructions@.len() == self.length
    }

    pub fn is_complete(&self) -> (done: bool)
        ensures
            done == self.complete(),
    {
        self.instructions.len() == self.length
    }

    /// What the draft waits for, if it is not complete.
    pub fn request(&self) -> (asked: Option<RealRequest>)
        ensures
            asked == if self.complete() {
                None
            } else {
                Some(push_request())
            },
    {
        if self.instructions.len() == self.length {
            None
        } else {
            Some(RealRequest { low: Real::from_bits(MINUS_TEN), high: Real::from_bits(TEN) })
        }
    }

    /// Draws instructions up to the draft's length, or up to a `PUSH`.
    fn fill(&mut self, rng: &mut StdRng)
        requires
            old(self).wf(),
        ensures
            final(self).wf(),
            final(self).length == old(self).length,
            old(self)@.is_prefix_of(final(self)@),
            all_well_formed(old(self)@) ==> all_well_formed(final(self)@),
    {
        while self.instructions.len() < self.length
            invariant
                self.wf(),
                self.length == old(self).length,
                old(self)@.is_prefix_of(self@),
                all_well_formed(old(self)@) ==> all_well_formed(self@),
            decreases self.length - self.instructions.len(),
        {
            let ghost before = self@;
            match random_instruction(rng) {
                Slot::Ready(instr) => {
                    proof {
                        lemma_drawn_well_formed(SlotView::Ready(instr@), Real { bits: 0 });
                    }
                    self.instructions.push(instr);
                    assert(self@ =~= before.push(instr@));
                },
                Slot::Push => {
                    return;
                },
            }
        }
    }

    /// Hands the draft the argument it waited for, and draws on.
    pub fn supply(&mut self, value: Real, rng: &mut StdRng)
        requires
            old(self).wf(),
            !old(self).complete(),
        ensures
            final(self).wf(),
            final(self).length == old(self).length,
            old(self)@.push(push_of(value)).is_prefix_of(final(self)@),
            all_well_formed(old(self)@) && value.finite() ==> all_well_formed(final(self)@),
    {
        let ghost before = self@;
        self.instructions.push(make_push(value));
        assert(self@ =~= before.push(push_of(value)));
        proof {
            if value.finite() {
                lemma_drawn_well_formed(SlotView::Push, value);
            }
        }
        self.fill(rng);
    }

    /// The genome that a complete draft has become.
    pub fn finish(self) -> (genome: Genome)
        requires
            self.wf(),
            self.complete(),
        ensures
            genome@ == self@,
            MIN_LEN <= genome@.len() <= MAX_LEN,
    {
        Genome { instructions: self.instructions }
    }
}

/// Begins a genome: draws its length, from 8 to 32, and then its
/// instructions, up to that length or up to the first `PUSH`.
pub fn random_genome(rng: &mut StdRng) -> (draft: GenomeDraft)
    ensures
        draft.wf(),
        all_well_formed(draft@),
{
    let length = gen_range_inclusive(rng, MIN_LEN, MAX_LEN);
    let mut draft = GenomeDraft { instructions: Vec::new(), length };
    draft.fill(rng);
    draft
}

/// The four ways to mutate a genome.
#[derive(Clone, Copy, Debug, PartialEq, Eq, Structural)]
pub enum Operator {
    Point,
    Tweak,
    Insert,
    Delete,
}

/// How many operators there are to choose from.
pub const OPERATOR_COUNT: i32 = 4;

/// The operator that a drawn choice stands for.
pub open spec fn operator_of(choice: int) -> Operator {
    if choice == 0 {
        Operator::Point
    } else if choice == 1 {
        Operator::Tweak
    } else if choice == 2 {
        Operator::Insert
    } else {
        Operator::Delete
    }
}

pub fn operator_for(choice: i32) -> (operator: Operator)
    ensures
        operator == operator_of(choice as int),
{
    if choice == 0 {
        Operator::Point
    } else if choice == 1 {
        Operator::Tweak
    } else if choice == 2 {
        Operator::Insert
    } else {
        Operator::Delete
    }
}

/// Whether an instruction's symbol is `PUSH`.
pub open spec fn is_push(instr: InstructionView) -> bool {
    instr.op == "PUSH"@
}

/// The positions below `upto` at which a genome holds a `PUSH`, in rising
/// order.
pub open spec fn push_positions(genome: Seq<InstructionView>, upto: int) -> Seq<int>
    decreases upto,
{
    if upto <= 0 {
        Seq::empty()
    } else if is_push(genome[upto - 1]) {
        push_positions(genome, upto - 1).push(upto - 1)
    } else {
        push_positions(genome, upto - 1)
    }
}

/// Every listed position lies below `upto` and holds a `PUSH`.
pub proof fn lemma_push_positions(genome: Seq<InstructionView>, upto: int)
    requires
        upto <= genome.len(),
    ensures
        forall|k: int|
            0 <= k < push_positions(genome, upto).len() ==> {
                &&& 0 <= #[trigger] push_positions(genome, upto)[k] < upto
                &&& is_push(genome[push_positions(genome, upto)[k]])
            },
    decreases upto,
{
    if upto > 0 {
        lemma_push_positions(genome, upto - 1);
        let shorter = push_positions(genome, upto - 1);
        let all = push_positions(genome, upto);
        assert forall|k: int| 0 <= k < all.len() implies 0 <= #[trigger] all[k] < upto && is_push(
            genome[all[k]],
        ) by {
            if k < shorter.len() {
                assert(all[k] == shorter[k]);
            }
        }
    }
}

/// A position that holds a `PUSH` is listed.
pub proof fn lemma_push_found(genome: Seq<InstructionView>, upto: int, at: int)
    requires
        0 <= at < upto <= genome.len(),
        is_push(genome[at]),
    ensures
        push_positions(genome, upto).len() > 0,
    decreases upto,
{
    if at < upto - 1 {
        lemma_push_found(genome, upto - 1, at);
    }
}

/// The positions at which a genome holds a `PUSH`, in rising order.
pub fn push_indices(genome: &Genome) -> (found: Vec<usize>)
    ensures
        found@.len() == push_positions(genome@, genome@.len() as int).len(),
        forall|k: int|
            0 <= k < found@.len() ==> #[trigger] found@[k] as int == push_positions(
                genome@,
                genome@.len() as int,
            )[k],
{
    let mut found: Vec<usize> = Vec::new();
    let mut i: usize = 0;
    while i < genome.instructions.len()
        invariant
            i <= genome.instructions@.len(),
            genome@.len() == genome.instructions@.len(),
            found@.len() == push_positions(genome@, i as int).len(),
            forall|k: int|
                0 <= k < found@.len() ==> #[trigger] found@[k] as int == push_positions(
                    genome@,
                    i as int,
                )[k],
        decreases genome.instructions@.len() - i,
    {
        assert(genome@[i as int] == genome.instructions@[i as int]@);
        if crate::models::same_text(genome.instructions[i].op.as_str(), "PUSH") {
            found.push(i);
        }
        i += 1;
    }
    found
}

/// One change to a genome, as the draws have settled it. A slot in it may
/// still wait for a number, and a tweak always does.
#[derive(Debug)]
pub enum Edit {
    /// The instruction at `index` gives way to the slot's.
    Replace { index: usize, slot: Slot },
    /// The slot's instruction goes in before `index`.
    Insert { index: usize, slot: Slot },
    /// The instruction at `index` goes.
    Remove { index: usize },
    /// The `PUSH` at `index` gets its argument changed.
    Tweak { index: usize },
    /// Nothing changes.
    Keep,
}

/// What an edit holds, as plain values.
pub ghost enum EditView {
    Replace { index: int, slot: SlotView },
    Insert { index: int, slot: SlotView },
    Remove { index: int },
    Tweak { index: int },
    Keep,
}

impl View for Edit {
    type V = EditView;

    open spec fn view(&self) -> EditView {
        match self {
            Edit::Replace { index, slot } => EditView::Replace {
                index: *index as int,
                slot: slot@,
            },
            Edit::Insert { index, slot } => EditView::Insert { index: *index as int, slot: slot@ },
            Edit::Remove { index } => EditView::Remove { index: *index as int },
            Edit::Tweak { index } => EditView::Tweak { index: *index as int },
            Edit::Keep => EditView::Keep,
        }
    }
}

/// A genome cut to the greatest length.
pub open spec fn truncated(genome: Seq<InstructionView>) -> Seq<InstructionView> {
    if genome.len() > ABS_MAX_LEN {
        genome.subrange(0, ABS_MAX_LEN as int)
    } else {
        genome
    }
}

impl EditView {
    /// Whether the edit is one for `genome`: its position exists, a tweak
    /// meets a `PUSH`, an insertion finds room, a removal leaves something,
    /// and only a genome of one instruction is kept as it is.
    pub open spec fn fits(self, genome: Seq<InstructionView>) -> bool {
        match self {
            EditView::Replace { index, .. } => 0 <= index < genome.len(),
            EditView::Insert { index, .. } => 0 <= index <= genome.len() < ABS_MAX_LEN,
            EditView::Remove { index } => 0 <= index < genome.len() && genome.len() > 1,
            EditView::Tweak { index } => 0 <= index < genome.len() && is_push(genome[index]),
            EditView::Keep => genome.len() == 1,
        }
    }

    /// Whether the edit's slot, if it has one, is one that a draw can give.
    pub open spec fn drawn(self) -> bool {
        match self {
            EditView::Replace { slot, .. } => slot.drawn(),
            EditView::Insert { slot, .. } => slot.drawn(),
            _ => true,
        }
    }

    /// The number that the edit waits for, if any: the argument of its
    /// `PUSH`, or the noise of its tweak.
    pub open spec fn request(self) -> Option<RealRequest> {
        match self {
            EditView::Replace { slot: SlotView::Push, .. } => Some(push_request()),
            EditView::Insert { slot: SlotView::Push, .. } => Some(push_request()),
            EditView::Tweak { .. } => Some(noise_request()),
            _ => None,
        }
    }

    /// Whether the edit, given `value`, makes a well-formed instruction: the
    /// argument of its `PUSH` is finite, or the sum of its tweak is a number.
    pub open spec fn sound_with(self, genome: Seq<InstructionView>, value: Real) -> bool {
        match self {
            EditView::Replace { slot: SlotView::Push, .. } => value.finite(),
            EditView::Insert { slot: SlotView::Push, .. } => value.finite(),
            EditView::Tweak { index } => !tweak_sum(genome[index].arg, value).nan(),
            _ => true,
        }
    }

    /// The genome after the edit, `value` being the number that the edit
    /// waited for. No genome grows beyond the greatest length.
    pub open spec fn applied(self, genome: Seq<InstructionView>, value: Real) -> Seq<
        InstructionView,
    > {
        truncated(
            match self {
                EditView::Replace { index, slot } => genome.update(index, slot.filled(value)),
                EditView::Insert { index, slot } => genome.insert(index, slot.filled(value)),
                EditView::Remove { index } => genome.remove(index),
                EditView::Tweak { index } => genome.update(
                    index,
                    InstructionView {
                        op: genome[index].op,
                        arg: Some(tweaked(genome[index].arg, value)),
                    },
                ),
                EditView::Keep => genome,
            },
        )
    }
}

/// An edit that fits leaves a genome of 1 to 64 instructions.
pub proof fn lemma_applied_length(edit: EditView, genome: Seq<InstructionView>, value: Real)
    requires
        edit.fits(genome),
    ensures
        1 <= edit.applied(genome, value).len() <= ABS_MAX_LEN,
        genome.len() <= ABS_MAX_LEN ==> edit.applied(genome, value).len() <= genome.len() + 1,
{
}

/// What a slot becomes is well formed, a waiting `PUSH` with a finite
/// argument.
pub proof fn lemma_slot_well_formed(slot: SlotView, value: Real)
    requires
        slot.drawn(),
        slot is Push ==> value.finite(),
    ensures
        well_formed(slot.filled(value)),
{
    if slot is Push {
        lemma_drawn_well_formed(slot, value);
    } else {
        lemma_drawn_well_formed(slot, Real { bits: ZERO });
    }
}

/// A clamped number is finite, unless it was no number before.
pub proof fn lemma_clamped_finite(value: Real)
    requires
        !value.nan(),
    ensures
        value.clamped(Real { bits: MINUS_TEN }, Real { bits: TEN }).finite(),
{
}

/// A mutation keeps a genome well formed: an edit that fits it, made of
/// what the draws can give, leaves every instruction well formed, where the
/// argument given to its `PUSH` is finite, or the sum of its tweak a number.
pub proof fn lemma_applied_well_formed(
    edit: EditView,
    genome: Seq<InstructionView>,
    value: Real,
)
    requires
        edit.fits(genome),
        edit.drawn(),
        all_well_formed(genome),
        edit.sound_with(genome, value),
    ensures
        all_well_formed(edit.applied(genome, value)),
{
    let after = edit.applied(genome, value);
    match edit {
        EditView::Replace { index, slot } => {
            lemma_slot_well_formed(slot, value);
            assert forall|i: int| 0 <= i < after.len() implies well_formed(#[trigger] after[i]) by {
                if i != index {
                    assert(after[i] == genome[i]);
                }
            }
        },
        EditView::Insert { index, slot } => {
            lemma_slot_well_formed(slot, value);
            assert forall|i: int| 0 <= i < after.len() implies well_formed(#[trigger] after[i]) by {
                if i < index {
                    assert(after[i] == genome[i]);
                } else if i > index {
                    assert(after[i] == genome[i - 1]);
                }
            }
        },
        EditView::Remove { index } => {
            assert forall|i: int| 0 <= i < after.len() implies well_formed(#[trigger] after[i]) by {
                if i < index {
                    assert(after[i] == genome[i]);
                } else {
                    assert(after[i] == genome[i + 1]);
                }
            }
        },
        EditView::Tweak { index } => {
            lemma_clamped_finite(tweak_sum(genome[index].arg, value));
            Opcode::Push.lemma_symbol_named();
            assert forall|i: int| 0 <= i < after.len() implies well_formed(#[trigger] after[i]) by {
                if i != index {
                    assert(after[i] == genome[i]);
                } else {
                    assert(Opcode::named(genome[index].op) == Some(Opcode::Push));
                }
            }
        },
        EditView::Keep => {},
    }
}

impl Slot {
    /// The slot's instruction; a waiting `PUSH` takes `value` for its
    /// argument.
    pub fn fill(self, value: Real) -> (instr: Instruction)
        ensures
            instr@ == self@.filled(value),
    {
        match self {
            Slot::Ready(instr) => instr,
            Slot::Push => make_push(value),
        }
    }
}

impl Edit {
    /// The number that the edit waits for, if any.
    pub fn request(&self) -> (asked: Option<RealRequest>)
        ensures
            asked == self@.request(),
    {
        match self {
            Edit::Replace { slot: Slot::Push, .. } | Edit::Insert { slot: Slot::Push, .. } => Some(
                RealRequest { low: Real::from_bits(MINUS_TEN), high: Real::from_bits(TEN) },
            ),
            Edit::Tweak { .. } => Some(
                RealRequest { low: Real::from_bits(MINUS_ONE), high: Real::from_bits(ONE) },
            ),
            _ => None,
        }
    }
}

/// Carries an edit out. `value` is the number that the edit waited for; an
/// edit that waited for none does not look at it. A well-formed genome
/// stays so where the number makes a well-formed instruction.
pub fn apply_edit(genome: &mut Genome, edit: Edit, value: Real)
    requires
        edit@.fits(old(genome)@),
    ensures
        final(genome)@ == edit@.applied(old(genome)@, value),
        1 <= final(genome)@.len() <= ABS_MAX_LEN,
        all_well_formed(old(genome)@) && edit@.drawn() && edit@.sound_with(old(genome)@, value)
            ==> all_well_formed(final(genome)@),
{
    let ghost before = genome@;
    proof {
        lemma_applied_length(edit@, before, value);
        if all_well_formed(before) && edit@.drawn() && edit@.sound_with(before, value) {
            lemma_applied_well_formed(edit@, before, value);
        }
    }
    match edit {
        Edit::Replace { index, slot } => {
            let instr = slot.fill(value);
            genome.instructions.set(index, instr);
            assert(genome@ =~= before.update(index as int, instr@));
        },
        Edit::Insert { index, slot } => {
            let instr = slot.fill(value);
            genome.instructions.insert(index, instr);
            assert(genome@ =~= before.insert(index as int, instr@));
        },
        Edit::Remove { index } => {
            genome.instructions.remove(index);
            assert(genome@ =~= before.remove(index as int));
        },
        Edit::Tweak { index } => {
            assert(before[index as int] == genome.instructions@[index as int]@);
            let instr = Instruction {
                op: genome.instructions[index].op.clone(),
                arg: Some(tweak(genome.instructions[index].arg, value)),
            };
            genome.instructions.set(index, instr);
            assert(genome@ =~= before.update(index as int, instr@));
        },
        Edit::Keep => {},
    }
    let ghost edited = genome@;
    if genome.instructions.len() > ABS_MAX_LEN {
        genome.instructions.truncate(ABS_MAX_LEN);
        assert(genome@ =~= edited.subrange(0, ABS_MAX_LEN as int));
    }
}

/// Carries an edit out where that makes a well-formed instruction, and
/// says whether it did: an edit whose `PUSH` would get an argument that is
/// not finite, or whose tweak would make a sum that is no number, leaves the
/// genome as it is.
pub fn apply_sound(genome: &mut Genome, edit: Edit, value: Real) -> (applied: bool)
    requires
        edit@.fits(old(genome)@),
    ensures
        applied == edit@.sound_with(old(genome)@, value),
        final(genome)@ == if applied {
            edit@.applied(old(genome)@, value)
        } else {
            old(genome)@
        },
        applied ==> 1 <= final(genome)@.len() <= ABS_MAX_LEN,
        all_well_formed(old(genome)@) && edit@.drawn() ==> all_well_formed(final(genome)@),
{
    let sound = match &edit {
        Edit::Replace { slot: Slot::Push, .. } | Edit::Insert { slot: Slot::Push, .. } => {
            value.is_finite()
        },
        Edit::Tweak { index } => {
            assert(genome@[*index as int] == genome.instructions@[*index as int]@);
            try_tweak(genome.instructions[*index].arg, value).is_some()
        },
        _ => true,
    };
    if sound {
        apply_edit(genome, edit, value);
    }
    sound
}

/// The point mutation: a position, each alike, gets a freshly drawn
/// instruction.
pub fn point_mutate(genome: &Genome, rng: &mut StdRng) -> (edit: Edit)
    requires
        genome@.len() > 0,
    ensures
        edit@ matches EditView::Replace { .. },
        edit@.fits(genome@),
        edit@.drawn(),
{
    let index = gen_range_usize(rng, genome.instructions.len());
    Edit::Replace { index, slot: random_instruction(rng) }
}

/// The tweak: one of the genome's `PUSH` instructions, each alike, is to get
/// noise added to its argument. A genome without a `PUSH` gets the point
/// mutation.
pub fn tweak_push(genome: &Genome, rng: &mut StdRng) -> (edit: Edit)
    requires
        genome@.len() > 0,
    ensures
        edit@.fits(genome@),
        edit@.drawn(),
        match edit@ {
            EditView::Tweak { .. } => true,
            EditView::Replace { .. } => push_positions(genome@, genome@.len() as int).len() == 0,
            _ => false,
        },
{
    let pushes = push_indices(genome);
    if pushes.len() == 0 {
        return point_mutate(genome, rng);
    }
    let chosen = gen_range_usize(rng, pushes.len());
    proof {
        lemma_push_positions(genome@, genome@.len() as int);
    }
    Edit::Tweak { index: pushes[chosen] }
}

/// The insertion: a freshly drawn instruction goes in at a position from 0 to
/// the genome's length, each alike. A genome of the greatest length gets the
/// point mutation.
pub fn insert_instruction(genome: &Genome, rng: &mut StdRng) -> (edit: Edit)
    requires
        genome@.len() > 0,
    ensures
        edit@.fits(genome@),
        edit@.drawn(),
        match edit@ {
            EditView::Insert { .. } => true,
            EditView::Replace { .. } => genome@.len() >= ABS_MAX_LEN,
            _ => false,
        },
{
    if genome.instructions.len() >= ABS_MAX_LEN {
        return point_mutate(genome, rng);
    }
    let index = gen_range_inclusive(rng, 0, genome.instructions.len());
    Edit::Insert { index, slot: random_instruction(rng) }
}

/// The removal: the instruction at a position, each alike, goes. A genome of
/// one instruction keeps it.
pub fn delete_instruction(genome: &Genome, rng: &mut StdRng) -> (edit: Edit)
    requires
        genome@.len() > 0,
    ensures
        edit@.fits(genome@),
        match edit@ {
            EditView::Remove { .. } => true,
            EditView::Keep => true,
            _ => false,
        },
{
    if genome.instructions.len() <= 1 {
        return Edit::Keep;
    }
    let index = gen_range_usize(rng, genome.instructions.len());
    Edit::Remove { index }
}

/// Whether `edit` is of the kind that `operator` makes of `genome`: the
/// point mutation replaces; the tweak tweaks, or replaces where the genome
/// has no `PUSH`; the insertion inserts, or replaces in a genome of the
/// greatest length; the removal removes, or keeps a genome of one
/// instruction.
pub open spec fn made_by(operator: Operator, genome: Seq<InstructionView>, edit: EditView) -> bool {
    match operator {
        Operator::Point => edit is Replace,
        Operator::Tweak => if push_positions(genome, genome.len() as int).len() == 0 {
            edit is Replace
        } else {
            edit is Tweak
        },
        Operator::Insert => if genome.len() >= ABS_MAX_LEN {
            edit is Replace
        } else {
            edit is Insert
        },
        Operator::Delete => if genome.len() <= 1 {
            edit is Keep
        } else {
            edit is Remove
        },
    }
}

/// Settles the mutation that `operator` makes of `genome`, with the
/// operator's own draws.
pub fn mutate_with(genome: &Genome, operator: Operator, rng: &mut StdRng) -> (edit: Edit)
    requires
        genome@.len() > 0,
    ensures
        edit@.fits(genome@),
        edit@.drawn(),
        made_by(operator, genome@, edit@),
{
    match operator {
        Operator::Point => point_mutate(genome, rng),
        Operator::Tweak => {
            proof {
                lemma_push_positions(genome@, genome@.len() as int);
            }
            let edit = tweak_push(genome, rng);
            proof {
                if let EditView::Tweak { index } = edit@ {
                    lemma_push_found(genome@, genome@.len() as int, index);
                }
            }
            edit
        },
        Operator::Insert => insert_instruction(genome, rng),
        Operator::Delete => delete_instruction(genome, rng),
    }
}

/// Settles one mutation of `genome`: an empty genome is to get a freshly
/// drawn instruction; for any other, one of the four operators is chosen,
/// each alike, and makes its own draws after that. The genome itself is
/// changed by [`apply_edit`], once the number that the edit asks for, if any,
/// is there.
pub fn mutate_genome(genome: &Genome, rng: &mut StdRng) -> (edit: Edit)
    ensures
        edit@.fits(genome@),
        edit@.drawn(),
        genome@.len() == 0 ==> (edit@ matches EditView::Insert { index, .. } && index == 0),
{
    if genome.instructions.len() == 0 {
        return Edit::Insert { index: 0, slot: random_instruction(rng) };
    }
    mutate_with(genome, operator_for(gen_range_i32(rng, OPERATOR_COUNT)), rng)
}

} // verus!
