use vstd::prelude::*;
use crate::ir::{Block, IrOp, cell_amount};

verus! {

/// Why a run of a program ended.
#[derive(Clone, Copy, Debug, PartialEq, Eq, Structural)]
pub enum Halt {
    /// The program returned the given value.
    Returned(u8),
    /// The allowance of requests was used up before the program ended.
    OutOfFuel,
    /// A request read or wrote the cell while the pointer stood outside the tape.
    PointerOutsideTape,
    /// The program ran past its last request, fell into the start of a block,
    /// or branched to a block that is never positioned at.
    Malformed,
}

/// The state of a running program as a mathematical value.
pub struct MachineModel {
    /// The tape; empty until it is allocated.
    pub cells: Seq<u8>,
    /// The pointer register.
    pub pointer: i64,
    /// The bytes handed to the output intrinsic so far.
    pub output: Seq<u8>,
    /// How many bytes of the input were read so far.
    pub consumed: nat,
    /// The index of the next request.
    pub pc: nat,
}

/// What one request does to a running program.
pub enum StepModel {
    Next(MachineModel),
    Halted(Halt),
}

/// How a run ended: the last state, the reason, and the number of requests carried out.
pub struct OutcomeModel {
    pub machine: MachineModel,
    pub halt: Halt,
    pub steps: nat,
}

/// The byte that the input intrinsic hands out at the end of the input.
pub const END_OF_INPUT: u8 = 255;

/// A cell after adding `amount` with 8-bit wraparound.
pub open spec fn add_cell(value: u8, amount: u8) -> u8 {
    ((value + amount) % 256) as u8
}

/// A cell after subtracting `amount` with 8-bit wraparound.
pub open spec fn sub_cell(value: u8, amount: u8) -> u8 {
    ((value + 256 - amount) % 256) as u8
}

/// The pointer register after adding one in 64 bits.
pub open spec fn pointer_right(p: i64) -> i64 {
    if p == i64::MAX {
        i64::MIN
    } else {
        (p + 1) as i64
    }
}

/// The pointer register after subtracting one in 64 bits.
pub open spec fn pointer_left(p: i64) -> i64 {
    if p == i64::MIN {
        i64::MAX
    } else {
        (p - 1) as i64
    }
}

/// The index of the first `PositionAt(block)` at or behind `from`, if there is one.
pub open spec fn find_block_spec(ir: Seq<IrOp>, block: Block, from: int) -> Option<int>
    decreases ir.len() - from,
{
    if from < 0 || from >= ir.len() {
        None
    } else if ir[from] == IrOp::PositionAt(block) {
        Some(from)
    } else {
        find_block_spec(ir, block, from + 1)
    }
}

/// The machine before the first request.
pub open spec fn power_on() -> MachineModel {
    MachineModel { cells: Seq::empty(), pointer: 0, output: Seq::empty(), consumed: 0, pc: 0 }
}

/// Whether the pointer selects a cell of the tape.
pub open spec fn on_tape(m: MachineModel) -> bool {
    0 <= m.pointer < m.cells.len()
}

/// The state after a request that leaves the cell `value` behind and goes on
/// with the next request.
pub open spec fn with_cell(m: MachineModel, value: u8) -> MachineModel {
    MachineModel { cells: m.cells.update(m.pointer as int, value), pc: m.pc + 1, ..m }
}

/// The state after a branch to `block`, or the halt where no such block starts.
pub open spec fn jump(ir: Seq<IrOp>, m: MachineModel, block: Block) -> StepModel {
    match find_block_spec(ir, block, 0) {
        Some(i) => StepModel::Next(MachineModel { pc: (i + 1) as nat, ..m }),
        None => StepModel::Halted(Halt::Malformed),
    }
}

/// What the request at the program counter does.
pub open spec fn execute_spec(ir: Seq<IrOp>, m: MachineModel, input: Seq<u8>) -> StepModel {
    if m.pc >= ir.len() {
        StepModel::Halted(Halt::Malformed)
    } else {
        let next = m.pc + 1;
        match ir[m.pc as int] {
            IrOp::AllocTape { cells } => StepModel::Next(
                MachineModel { cells: Seq::new(cells as nat, |i: int| 0u8), pc: next, ..m },
            ),
            IrOp::AllocPointer => StepModel::Next(MachineModel { pointer: 0, pc: next, ..m }),
            IrOp::AddToCell(amount) => if on_tape(m) {
                StepModel::Next(with_cell(m, add_cell(m.cells[m.pointer as int], amount)))
            } else {
                StepModel::Halted(Halt::PointerOutsideTape)
            },
            IrOp::SubFromCell(amount) => if on_tape(m) {
                StepModel::Next(with_cell(m, sub_cell(m.cells[m.pointer as int], amount)))
            } else {
                StepModel::Halted(Halt::PointerOutsideTape)
            },
            IrOp::MovePointerRight => StepModel::Next(
                MachineModel { pointer: pointer_right(m.pointer), pc: next, ..m },
            ),
            IrOp::MovePointerLeft => StepModel::Next(
                MachineModel { pointer: pointer_left(m.pointer), pc: next, ..m },
            ),
            IrOp::AppendBlock(block) => StepModel::Next(MachineModel { pc: next, ..m }),
            IrOp::BranchIfZero { zero, nonzero } => if on_tape(m) {
                jump(ir, m, if m.cells[m.pointer as int] == 0 { zero } else { nonzero })
            } else {
                StepModel::Halted(Halt::PointerOutsideTape)
            },
            IrOp::BranchIfNonZero { nonzero, zero } => if on_tape(m) {
                jump(ir, m, if m.cells[m.pointer as int] != 0 { nonzero } else { zero })
            } else {
                StepModel::Halted(Halt::PointerOutsideTape)
            },
            IrOp::PositionAt(block) => StepModel::Halted(Halt::Malformed),
            IrOp::Output => if on_tape(m) {
                StepModel::Next(
                    MachineModel { output: m.output.push(m.cells[m.pointer as int]), pc: next, ..m },
                )
            } else {
                StepModel::Halted(Halt::PointerOutsideTape)
            },
            IrOp::Input => if !on_tape(m) {
                StepModel::Halted(Halt::PointerOutsideTape)
            } else if m.consumed < input.len() {
                StepModel::Next(
                    MachineModel {
                        consumed: m.consumed + 1,
                        ..with_cell(m, input[m.consumed as int])
                    },
                )
            } else {
                StepModel::Next(with_cell(m, END_OF_INPUT))
            },
            IrOp::Return(value) => StepModel::Halted(Halt::Returned(value)),
        }
    }
}

/// The run of `ir` from state `m` with an allowance of `fuel` requests.
pub open spec fn run_from(ir: Seq<IrOp>, m: MachineModel, input: Seq<u8>, fuel: nat) -> OutcomeModel
    decreases fuel,
{
    if fuel == 0 {
        OutcomeModel { machine: m, halt: Halt::OutOfFuel, steps: 0 }
    } else {
        match execute_spec(ir, m, input) {
            StepModel::Halted(h) => OutcomeModel { machine: m, halt: h, steps: 0 },
            StepModel::Next(m2) => {
                let rest = run_from(ir, m2, input, (fuel - 1) as nat);
                OutcomeModel { steps: (rest.steps + 1) as nat, ..rest }
            },
        }
    }
}

/// A run changes the cell by its whole count, reduced to the width of a
/// cell only when it is added or subtracted.
pub proof fn lemma_amount_follows_count(value: u8, n: u64)
    ensures
        add_cell(value, cell_amount(n)) == (value + n) % 256,
        sub_cell(value, cell_amount(n)) == (value - n) % 256,
{
}

/// Adding a run's amount to a cell and subtracting the same amount again
/// leaves the cell as it was, whatever the run's length.
pub proof fn lemma_add_then_sub_restores(value: u8, n: u64)
    ensures
        sub_cell(add_cell(value, cell_amount(n)), cell_amount(n)) == value,
        add_cell(sub_cell(value, cell_amount(n)), cell_amount(n)) == value,
{
}

/// A running program: the tape, the pointer register, and what it has read and written.
#[derive(Debug)]
pub struct Machine {
    pub cells: Vec<u8>,
    pub pointer: i64,
    pub output: Vec<u8>,
    pub consumed: usize,
    pub pc: usize,
}

impl View for Machine {
    type V = MachineModel;

    open spec fn view(&self) -> MachineModel {
        MachineModel {
            cells: self.cells@,
            pointer: self.pointer,
            output: self.output@,
            consumed: self.consumed as nat,
            pc: self.pc as nat,
        }
    }
}

/// How a run ended.
#[derive(Debug)]
pub struct Outcome {
    pub machine: Machine,
    pub halt: Halt,
    pub steps: u64,
}

impl View for Outcome {
    type V = OutcomeModel;

    open spec fn view(&self) -> OutcomeModel {
        OutcomeModel { machine: self.machine@, halt: self.halt, steps: self.steps as nat }
    }
}

/// Finds where the given block starts: the index of the first request that
/// positions at it.
pub fn find_block(ir: &Vec<IrOp>, block: Block) -> (r: Option<usize>)
    ensures
        match r {
            Some(i) => find_block_spec(ir@, block, 0) == Some(i as int) && i < ir.len(),
            None => find_block_spec(ir@, block, 0) is None,
        },
{
    let mut i: usize = 0;
    while i < ir.len()
        invariant
            0 <= i <= ir.len(),
            find_block_spec(ir@, block, 0) == find_block_spec(ir@, block, i as int),
        decreases ir.len() - i,
    {
        let found = match ir[i] {
            IrOp::PositionAt(b) => b == block,
            _ => false,
        };
        if found {
            return Some(i);
        }
        i = i + 1;
    }
    None
}

impl Machine {
    /// A machine before the first request: no tape yet, nothing read or written.
    pub fn new() -> (r: Machine)
        ensures
            r@ == power_on(),
    {
        let r = Machine { cells: Vec::new(), pointer: 0, output: Vec::new(), consumed: 0, pc: 0 };
        assert(r@.cells =~= Seq::<u8>::empty());
        assert(r@.output =~= Seq::<u8>::empty());
        r
    }

    fn jump_to(&mut self, ir: &Vec<IrOp>, block: Block) -> (r: Option<Halt>)
        ensures
            match r {
                None => jump(ir@, old(self)@, block) == StepModel::Next(final(self)@),
                Some(h) => jump(ir@, old(self)@, block) == StepModel::Halted(h)
                    && final(self)@ == old(self)@,
            },
    {
        match find_block(ir, block) {
            Some(i) => {
                self.pc = i + 1;
                None
            },
            None => Some(Halt::Malformed),
        }
    }

    /// Carries out the request at the program counter. Where the run halts
    /// instead, the machine is left as it was.
    pub fn step(&mut self, ir: &Vec<IrOp>, input: &Vec<u8>) -> (r: Option<Halt>)
        ensures
            match r {
                None => execute_spec(ir@, old(self)@, input@) == StepModel::Next(final(self)@),
                Some(h) => execute_spec(ir@, old(self)@, input@) == StepModel::Halted(h)
                    && final(self)@ == old(self)@,
            },
    {
        if self.pc >= ir.len() {
            return Some(Halt::Malformed);
        }
        let op = ir[self.pc];
        let on_tape = 0 <= self.pointer && (self.pointer as u64) < (self.cells.len() as u64);
        let ghost before = self@;
        assert(on_tape == self::on_tape(before));
        match op {
            IrOp::AllocTape { cells } => {
                let mut tape: Vec<u8> = Vec::new();
                let mut k: u64 = 0;
                while k < cells
                    invariant
                        0 <= k <= cells,
                        tape@ == Seq::new(k as nat, |i: int| 0u8),
                    decreases cells - k,
                {
                    tape.push(0u8);
                    k = k + 1;
                    assert(tape@ =~= Seq::new(k as nat, |i: int| 0u8));
                }
                self.cells = tape;
            },
            IrOp::AllocPointer => {
                self.pointer = 0;
            },
            IrOp::AddToCell(amount) => {
                if !on_tape {
                    return Some(Halt::PointerOutsideTape);
                }
                let at: usize = self.pointer as usize;
                let value: u8 = self.cells[at];
                let sum: u16 = (value as u16 + amount as u16) % 256;
                self.cells.set(at, sum as u8);
            },
            IrOp::SubFromCell(amount) => {
                if !on_tape {
                    return Some(Halt::PointerOutsideTape);
                }
                let at: usize = self.pointer as usize;
                let value: u8 = self.cells[at];
                let difference: u16 = (value as u16 + 256 - amount as u16) % 256;
                self.cells.set(at, difference as u8);
            },
            IrOp::MovePointerRight => {
                self.pointer = if self.pointer == i64::MAX {
                    i64::MIN
                } else {
                    self.pointer + 1
                };
            },
            IrOp::MovePointerLeft => {
                self.pointer = if self.pointer == i64::MIN {
                    i64::MAX
                } else {
                    self.pointer - 1
                };
            },
            IrOp::AppendBlock(block) => {},
            IrOp::BranchIfZero { zero, nonzero } => {
                if !on_tape {
                    return Some(Halt::PointerOutsideTape);
                }
                let target = if self.cells[self.pointer as usize] == 0 {
                    zero
                } else {
                    nonzero
                };
                return self.jump_to(ir, target);
            },
            IrOp::BranchIfNonZero { nonzero, zero } => {
                if !on_tape {
                    return Some(Halt::PointerOutsideTape);
                }
                let target = if self.cells[self.pointer as usize] != 0 {
                    nonzero
                } else {
                    zero
                };
                return self.jump_to(ir, target);
            },
            IrOp::PositionAt(block) => {
                return Some(Halt::Malformed);
            },
            IrOp::Output => {
                if !on_tape {
                    return Some(Halt::PointerOutsideTape);
                }
                let value: u8 = self.cells[self.pointer as usize];
                self.output.push(value);
            },
            IrOp::Input => {
                if !on_tape {
                    return Some(Halt::PointerOutsideTape);
                }
                let at: usize = self.pointer as usize;
                if self.consumed < input.len() {
                    let value: u8 = input[self.consumed];
                    self.cells.set(at, value);
                    self.consumed = self.consumed + 1;
                } else {
                    self.cells.set(at, END_OF_INPUT);
                }
            },
            IrOp::Return(value) => {
                return Some(Halt::Returned(value));
            },
        }
        self.pc = self.pc + 1;
        None
    }
}

/// Runs a program on the given input, for at most `fuel` requests.
pub fn run(ir: &Vec<IrOp>, input: &Vec<u8>, fuel: u64) -> (r: Outcome)
    ensures
        r@ == run_from(ir@, power_on(), input@, fuel as nat),
{
    let mut machine = Machine::new();
    let mut steps: u64 = 0;
    while steps < fuel
        invariant
            0 <= steps <= fuel,
            run_from(ir@, power_on(), input@, fuel as nat) == (OutcomeModel {
                steps: (run_from(ir@, machine@, input@, (fuel - steps) as nat).steps + steps) as nat,
                ..run_from(ir@, machine@, input@, (fuel - steps) as nat)
            }),
        decreases fuel - steps,
    {
        match machine.step(ir, input) {
            Some(halt) => {
                return Outcome { machine, halt, steps };
            },
            None => {
                steps = steps + 1;
            },
        }
    }
    Outcome { machine, halt: Halt::OutOfFuel, steps }
}

} // verus!
