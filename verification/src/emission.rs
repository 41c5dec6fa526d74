use vstd::prelude::*;
use crate::ir::{Block, IrOp};
use crate::control::is_branch;
use crate::machine::{
    Halt, MachineModel, StepModel, END_OF_INPUT, add_cell, execute_spec, jump, pointer_left,
    pointer_right, sub_cell,
};

verus! {

/// One operation of the code generator's interface.
///
/// The operations pass their operands in four slots: `index` (a 64-bit
/// integer), `address` (the address of a cell), `value` (a byte) and
/// `condition` (the result of a comparison).
#[derive(Clone, Copy, Debug, PartialEq, Eq, Structural)]
pub enum BackendOp {
    /// Allocate a region of `cells` bytes and set them to zero.
    AllocateRegion { cells: u64 },
    /// Allocate the pointer register and set it to zero.
    AllocateRegister,
    /// `index` := the pointer register.
    LoadRegister,
    /// The pointer register := `index`.
    StoreRegister,
    /// `address` := the address of the cell that `index` selects.
    AddressCell,
    /// `value` := the byte at `address`.
    LoadCell,
    /// The byte at `address` := `value`.
    StoreCell,
    /// `value` := `value` plus the constant, in 8 bits with wraparound.
    AddToValue(u8),
    /// `value` := `value` minus the constant, in 8 bits with wraparound.
    SubFromValue(u8),
    /// `index` := `index` plus one, in 64 bits.
    IncrementIndex,
    /// `index` := `index` minus one, in 64 bits.
    DecrementIndex,
    /// `condition` := whether `value` equals zero.
    CompareZero,
    /// `condition` := whether `value` differs from zero.
    CompareNonZero,
    /// Go to `then_block` if `condition` holds, to `else_block` otherwise.
    Branch { then_block: Block, else_block: Block },
    /// Create a new, empty basic block.
    CreateBlock(Block),
    /// Emit what follows at the end of the given block.
    PositionAt(Block),
    /// Call the character-output intrinsic with `value`.
    CallOutput,
    /// `value` := the result of the character-input intrinsic.
    CallInput,
    /// Finish with the given return value.
    Return(u8),
}

/// The interface operations that carry out one request, in order.
pub open spec fn expand_spec(op: IrOp) -> Seq<BackendOp> {
    match op {
        IrOp::AllocTape { cells } => seq![BackendOp::AllocateRegion { cells }],
        IrOp::AllocPointer => seq![BackendOp::AllocateRegister],
        IrOp::AddToCell(amount) => seq![
            BackendOp::LoadRegister,
            BackendOp::AddressCell,
            BackendOp::LoadCell,
            BackendOp::AddToValue(amount),
            BackendOp::StoreCell,
        ],
        IrOp::SubFromCell(amount) => seq![
            BackendOp::LoadRegister,
            BackendOp::AddressCell,
            BackendOp::LoadCell,
            BackendOp::SubFromValue(amount),
            BackendOp::StoreCell,
        ],
        IrOp::MovePointerRight => seq![
            BackendOp::LoadRegister,
            BackendOp::IncrementIndex,
            BackendOp::StoreRegister,
        ],
        IrOp::MovePointerLeft => seq![
            BackendOp::LoadRegister,
            BackendOp::DecrementIndex,
            BackendOp::StoreRegister,
        ],
        IrOp::AppendBlock(block) => seq![BackendOp::CreateBlock(block)],
        IrOp::BranchIfZero { zero, nonzero } => seq![
            BackendOp::LoadRegister,
            BackendOp::AddressCell,
            BackendOp::LoadCell,
            BackendOp::CompareZero,
            BackendOp::Branch { then_block: zero, else_block: nonzero },
        ],
        IrOp::BranchIfNonZero { nonzero, zero } => seq![
            BackendOp::LoadRegister,
            BackendOp::AddressCell,
            BackendOp::LoadCell,
            BackendOp::CompareNonZero,
            BackendOp::Branch { then_block: nonzero, else_block: zero },
        ],
        IrOp::PositionAt(block) => seq![BackendOp::PositionAt(block)],
        IrOp::Output => seq![
            BackendOp::LoadRegister,
            BackendOp::AddressCell,
            BackendOp::LoadCell,
            BackendOp::CallOutput,
        ],
        IrOp::Input => seq![
            BackendOp::LoadRegister,
            BackendOp::AddressCell,
            BackendOp::CallInput,
            BackendOp::StoreCell,
        ],
        IrOp::Return(value) => seq![BackendOp::Return(value)],
    }
}

/// The interface operations for a whole program: those of each request, in order.
pub open spec fn lower_spec(ir: Seq<IrOp>) -> Seq<BackendOp>
    decreases ir.len(),
{
    if ir.len() == 0 {
        Seq::empty()
    } else {
        lower_spec(ir.drop_last()) + expand_spec(ir.last())
    }
}

/// Appends the interface operations for one request to `out`.
pub fn expand_into(op: IrOp, out: &mut Vec<BackendOp>)
    ensures
        final(out)@ == old(out)@ + expand_spec(op),
{
    let ghost before = out@;
    match op {
        IrOp::AllocTape { cells } => {
            out.push(BackendOp::AllocateRegion { cells });
        },
        IrOp::AllocPointer => {
            out.push(BackendOp::AllocateRegister);
        },
        IrOp::AddToCell(amount) => {
            out.push(BackendOp::LoadRegister);
            out.push(BackendOp::AddressCell);
            out.push(BackendOp::LoadCell);
            out.push(BackendOp::AddToValue(amount));
            out.push(BackendOp::StoreCell);
        },
        IrOp::SubFromCell(amount) => {
            out.push(BackendOp::LoadRegister);
            out.push(BackendOp::AddressCell);
            out.push(BackendOp::LoadCell);
            out.push(BackendOp::SubFromValue(amount));
            out.push(BackendOp::StoreCell);
        },
        IrOp::MovePointerRight => {
            out.push(BackendOp::LoadRegister);
            out.push(BackendOp::IncrementIndex);
            out.push(BackendOp::StoreRegister);
        },
        IrOp::MovePointerLeft => {
            out.push(BackendOp::LoadRegister);
            out.push(BackendOp::DecrementIndex);
            out.push(BackendOp::StoreRegister);
        },
        IrOp::AppendBlock(block) => {
            out.push(BackendOp::CreateBlock(block));
        },
        IrOp::BranchIfZero { zero, nonzero } => {
            out.push(BackendOp::LoadRegister);
            out.push(BackendOp::AddressCell);
            out.push(BackendOp::LoadCell);
            out.push(BackendOp::CompareZero);
            out.push(BackendOp::Branch { then_block: zero, else_block: nonzero });
        },
        IrOp::BranchIfNonZero { nonzero, zero } => {
            out.push(BackendOp::LoadRegister);
            out.push(BackendOp::AddressCell);
            out.push(BackendOp::LoadCell);
            out.push(BackendOp::CompareNonZero);
            out.push(BackendOp::Branch { then_block: nonzero, else_block: zero });
        },
        IrOp::PositionAt(block) => {
            out.push(BackendOp::PositionAt(block));
        },
        IrOp::Output => {
            out.push(BackendOp::LoadRegister);
            out.push(BackendOp::AddressCell);
            out.push(BackendOp::LoadCell);
            out.push(BackendOp::CallOutput);
        },
        IrOp::Input => {
            out.push(BackendOp::LoadRegister);
            out.push(BackendOp::AddressCell);
            out.push(BackendOp::CallInput);
            out.push(BackendOp::StoreCell);
        },
        IrOp::Return(value) => {
            out.push(BackendOp::Return(value));
        },
    }
    assert(out@ =~= before + expand_spec(op));
}

/// Spells a planned program out in operations of the code generator's interface.
pub fn lower(ir: &Vec<IrOp>) -> (r: Vec<BackendOp>)
    ensures
        r@ == lower_spec(ir@),
{
    let mut out: Vec<BackendOp> = Vec::new();
    let mut i: usize = 0;
    while i < ir.len()
        invariant
            0 <= i <= ir.len(),
            out@ == lower_spec(ir@.take(i as int)),
        decreases ir.len() - i,
    {
        proof {
            assert(ir@.take(i + 1).drop_last() =~= ir@.take(i as int));
            assert(ir@.take(i + 1).last() == ir@[i as int]);
        }
        expand_into(ir[i], &mut out);
        i = i + 1;
    }
    proof {
        assert(ir@.take(ir@.len() as int) =~= ir@);
    }
    out
}

/// The operand slots of the interface.
pub struct Slots {
    pub index: i64,
    pub address: int,
    pub value: u8,
    pub condition: bool,
}

/// The tape, the register and the streams, together with the slots.
pub struct BackendModel {
    pub machine: MachineModel,
    pub slots: Slots,
}

/// What one interface operation does. `None` where it reads or writes a
/// byte outside the region. The operations that shape the control flow
/// leave everything as it is: where they lead is the branch's business.
pub open spec fn apply_spec(op: BackendOp, b: BackendModel, input: Seq<u8>) -> Option<BackendModel> {
    let m = b.machine;
    let s = b.slots;
    match op {
        BackendOp::AllocateRegion { cells } => Some(
            BackendModel {
                machine: MachineModel { cells: Seq::new(cells as nat, |i: int| 0u8), ..m },
                slots: s,
            },
        ),
        BackendOp::AllocateRegister => Some(
            BackendModel { machine: MachineModel { pointer: 0, ..m }, slots: s },
        ),
        BackendOp::LoadRegister => Some(
            BackendModel { machine: m, slots: Slots { index: m.pointer, ..s } },
        ),
        BackendOp::StoreRegister => Some(
            BackendModel { machine: MachineModel { pointer: s.index, ..m }, slots: s },
        ),
        BackendOp::AddressCell => Some(
            BackendModel { machine: m, slots: Slots { address: s.index as int, ..s } },
        ),
        BackendOp::LoadCell => if 0 <= s.address < m.cells.len() {
            Some(BackendModel { machine: m, slots: Slots { value: m.cells[s.address], ..s } })
        } else {
            None
        },
        BackendOp::StoreCell => if 0 <= s.address < m.cells.len() {
            Some(
                BackendModel {
                    machine: MachineModel { cells: m.cells.update(s.address, s.value), ..m },
                    slots: s,
                },
            )
        } else {
            None
        },
        BackendOp::AddToValue(amount) => Some(
            BackendModel { machine: m, slots: Slots { value: add_cell(s.value, amount), ..s } },
        ),
        BackendOp::SubFromValue(amount) => Some(
            BackendModel { machine: m, slots: Slots { value: sub_cell(s.value, amount), ..s } },
        ),
        BackendOp::IncrementIndex => Some(
            BackendModel { machine: m, slots: Slots { index: pointer_right(s.index), ..s } },
        ),
        BackendOp::DecrementIndex => Some(
            BackendModel { machine: m, slots: Slots { index: pointer_left(s.index), ..s } },
        ),
        BackendOp::CompareZero => Some(
            BackendModel { machine: m, slots: Slots { condition: s.value == 0, ..s } },
        ),
        BackendOp::CompareNonZero => Some(
            BackendModel { machine: m, slots: Slots { condition: s.value != 0, ..s } },
        ),
        BackendOp::CallOutput => Some(
            BackendModel { machine: MachineModel { output: m.output.push(s.value), ..m }, slots: s },
        ),
        BackendOp::CallInput => if m.consumed < input.len() {
            Some(
                BackendModel {
                    machine: MachineModel { consumed: m.consumed + 1, ..m },
                    slots: Slots { value: input[m.consumed as int], ..s },
                },
            )
        } else {
            Some(BackendModel { machine: m, slots: Slots { value: END_OF_INPUT, ..s } })
        },
        BackendOp::Branch { then_block, else_block } => Some(b),
        BackendOp::CreateBlock(block) => Some(b),
        BackendOp::PositionAt(block) => Some(b),
        BackendOp::Return(value) => Some(b),
    }
}

/// What a sequence of interface operations does, one after the other.
pub open spec fn apply_all(ops: Seq<BackendOp>, b: BackendModel, input: Seq<u8>) -> Option<
    BackendModel,
>
    decreases ops.len(),
{
    if ops.len() == 0 {
        Some(b)
    } else {
        match apply_all(ops.drop_last(), b, input) {
            Some(b1) => apply_spec(ops.last(), b1, input),
            None => None,
        }
    }
}

/// Where the branch that ends a sequence of interface operations leads,
/// given what the operations before it left in the `condition` slot.
pub open spec fn branch_target(ops: Seq<BackendOp>, after: BackendModel) -> Option<Block> {
    if ops.len() > 0 && ops.last() is Branch {
        if after.slots.condition {
            Some(ops.last()->then_block)
        } else {
            Some(ops.last()->else_block)
        }
    } else {
        None
    }
}

/// Whether two machines hold the same tape, register and streams.
pub open spec fn same_data(a: MachineModel, b: MachineModel) -> bool {
    &&& a.cells == b.cells
    &&& a.pointer == b.pointer
    &&& a.output == b.output
    &&& a.consumed == b.consumed
}

/// What a sequence leaves after its first `n` operations.
pub open spec fn apply_front(ops: Seq<BackendOp>, n: int, b: BackendModel, input: Seq<u8>) -> Option<
    BackendModel,
>
    decreases n,
{
    if n <= 0 || n > ops.len() {
        Some(b)
    } else {
        match apply_front(ops, n - 1, b, input) {
            Some(b1) => apply_spec(ops[n - 1], b1, input),
            None => None,
        }
    }
}

/// Applying a sequence is applying its operations from the first to the last.
pub proof fn lemma_apply_all_unfolds(ops: Seq<BackendOp>, b: BackendModel, input: Seq<u8>)
    ensures
        apply_all(ops, b, input) == apply_front(ops, ops.len() as int, b, input),
{
    lemma_apply_front(ops, ops.len() as int, b, input);
    assert(ops.take(ops.len() as int) =~= ops);
}

/// The first `n` operations of a sequence, applied as a sequence of their own.
pub proof fn lemma_apply_front(ops: Seq<BackendOp>, n: int, b: BackendModel, input: Seq<u8>)
    requires
        0 <= n <= ops.len(),
    ensures
        apply_all(ops.take(n), b, input) == apply_front(ops, n, b, input),
    decreases n,
{
    if n > 0 {
        lemma_apply_front(ops, n - 1, b, input);
        assert(ops.take(n).drop_last() =~= ops.take(n - 1));
    }
}

/// Whether the interface operations of the request at the program counter
/// do what the request means: they leave the tape, the register and the
/// streams as the request does, they touch a byte outside the region exactly
/// where the request finds the pointer outside the tape, and the branch that
/// ends them goes where the request goes.
pub open spec fn carries_out(ir: Seq<IrOp>, m: MachineModel, slots: Slots, input: Seq<u8>) -> bool {
    let ops = expand_spec(ir[m.pc as int]);
    let after = apply_all(ops, BackendModel { machine: m, slots }, input);
    match execute_spec(ir, m, input) {
        StepModel::Next(m2) => {
            &&& after is Some
            &&& same_data(after->Some_0.machine, m2)
            &&& is_branch(ir[m.pc as int]) ==> {
                &&& branch_target(ops, after->Some_0) is Some
                &&& jump(ir, m, branch_target(ops, after->Some_0)->Some_0) == StepModel::Next(m2)
            }
        },
        StepModel::Halted(Halt::PointerOutsideTape) => after is None,
        StepModel::Halted(Halt::Returned(value)) => ops == seq![BackendOp::Return(value)],
        StepModel::Halted(_) => true,
    }
}

/// The operations for adding to the cell do what the request means.
pub proof fn lemma_add_carries_out(ir: Seq<IrOp>, m: MachineModel, slots: Slots, input: Seq<u8>)
    requires
        m.pc < ir.len(),
        ir[m.pc as int] is AddToCell,
    ensures
        carries_out(ir, m, slots, input),
{
    let ops = expand_spec(ir[m.pc as int]);
    let b = BackendModel { machine: m, slots };
    let amount = ir[m.pc as int]->AddToCell_0;
    lemma_apply_all_unfolds(ops, b, input);
    assert(ops.len() == 5);
    let s1 = Slots { index: m.pointer, ..slots };
    let s2 = Slots { address: m.pointer as int, ..s1 };
    assert(apply_front(ops, 0, b, input) == Some(b));
    assert(ops[0] == BackendOp::LoadRegister);
    assert(apply_front(ops, 1, b, input) == Some(BackendModel { machine: m, slots: s1 }));
    assert(ops[1] == BackendOp::AddressCell);
    assert(apply_front(ops, 2, b, input) == Some(BackendModel { machine: m, slots: s2 }));
    assert(ops[2] == BackendOp::LoadCell);
    if 0 <= m.pointer < m.cells.len() {
        let s3 = Slots { value: m.cells[m.pointer as int], ..s2 };
        let s4 = Slots { value: add_cell(m.cells[m.pointer as int], amount), ..s3 };
        let m5 = MachineModel { cells: m.cells.update(m.pointer as int, s4.value), ..m };
        assert(apply_front(ops, 3, b, input) == Some(BackendModel { machine: m, slots: s3 }));
        assert(ops[3] == BackendOp::AddToValue(amount));
        assert(apply_front(ops, 4, b, input) == Some(BackendModel { machine: m, slots: s4 }));
        assert(ops[4] == BackendOp::StoreCell);
        assert(apply_front(ops, 5, b, input) == Some(BackendModel { machine: m5, slots: s4 }));
    } else {
        assert(apply_front(ops, 3, b, input) is None);
        assert(apply_front(ops, 4, b, input) is None);
        assert(apply_front(ops, 5, b, input) is None);
    }
}

/// The operations for subtracting from the cell do what the request means.
pub proof fn lemma_sub_carries_out(ir: Seq<IrOp>, m: MachineModel, slots: Slots, input: Seq<u8>)
    requires
        m.pc < ir.len(),
        ir[m.pc as int] is SubFromCell,
    ensures
        carries_out(ir, m, slots, input),
{
    let ops = expand_spec(ir[m.pc as int]);
    let b = BackendModel { machine: m, slots };
    let amount = ir[m.pc as int]->SubFromCell_0;
    lemma_apply_all_unfolds(ops, b, input);
    assert(ops.len() == 5);
    let s1 = Slots { index: m.pointer, ..slots };
    let s2 = Slots { address: m.pointer as int, ..s1 };
    assert(apply_front(ops, 0, b, input) == Some(b));
    assert(ops[0] == BackendOp::LoadRegister);
    assert(apply_front(ops, 1, b, input) == Some(BackendModel { machine: m, slots: s1 }));
    assert(ops[1] == BackendOp::AddressCell);
    assert(apply_front(ops, 2, b, input) == Some(BackendModel { machine: m, slots: s2 }));
    assert(ops[2] == BackendOp::LoadCell);
    if 0 <= m.pointer < m.cells.len() {
        let s3 = Slots { value: m.cells[m.pointer as int], ..s2 };
        let s4 = Slots { value: sub_cell(m.cells[m.pointer as int], amount), ..s3 };
        let m5 = MachineModel { cells: m.cells.update(m.pointer as int, s4.value), ..m };
        assert(apply_front(ops, 3, b, input) == Some(BackendModel { machine: m, slots: s3 }));
        assert(ops[3] == BackendOp::SubFromValue(amount));
        assert(apply_front(ops, 4, b, input) == Some(BackendModel { machine: m, slots: s4 }));
        assert(ops[4] == BackendOp::StoreCell);
        assert(apply_front(ops, 5, b, input) == Some(BackendModel { machine: m5, slots: s4 }));
    } else {
        assert(apply_front(ops, 3, b, input) is None);
        assert(apply_front(ops, 4, b, input) is None);
        assert(apply_front(ops, 5, b, input) is None);
    }
}

/// The operations for moving the pointer right do what the request means.
pub proof fn lemma_move_right_carries_out(ir: Seq<IrOp>, m: MachineModel, slots: Slots, input: Seq<u8>)
    requires
        m.pc < ir.len(),
        ir[m.pc as int] is MovePointerRight,
    ensures
        carries_out(ir, m, slots, input),
{
    let ops = expand_spec(ir[m.pc as int]);
    let b = BackendModel { machine: m, slots };
    lemma_apply_all_unfolds(ops, b, input);
    let s1 = Slots { index: m.pointer, ..slots };
    assert(apply_front(ops, 0, b, input) == Some(b));
    assert(ops[0] == BackendOp::LoadRegister);
    assert(apply_front(ops, 1, b, input) == Some(BackendModel { machine: m, slots: s1 }));
    let s2 = Slots { index: pointer_right(m.pointer), ..s1 };
    let m3 = MachineModel { pointer: s2.index, ..m };
    assert(ops[1] == BackendOp::IncrementIndex);
    assert(apply_front(ops, 2, b, input) == Some(BackendModel { machine: m, slots: s2 }));
    assert(ops[2] == BackendOp::StoreRegister);
    assert(apply_front(ops, 3, b, input) == Some(BackendModel { machine: m3, slots: s2 }));
}

/// The operations for moving the pointer left do what the request means.
pub proof fn lemma_move_left_carries_out(ir: Seq<IrOp>, m: MachineModel, slots: Slots, input: Seq<u8>)
    requires
        m.pc < ir.len(),
        ir[m.pc as int] is MovePointerLeft,
    ensures
        carries_out(ir, m, slots, input),
{
    let ops = expand_spec(ir[m.pc as int]);
    let b = BackendModel { machine: m, slots };
    lemma_apply_all_unfolds(ops, b, input);
    let s1 = Slots { index: m.pointer, ..slots };
    assert(apply_front(ops, 0, b, input) == Some(b));
    assert(ops[0] == BackendOp::LoadRegister);
    assert(apply_front(ops, 1, b, input) == Some(BackendModel { machine: m, slots: s1 }));
    let s2 = Slots { index: pointer_left(m.pointer), ..s1 };
    let m3 = MachineModel { pointer: s2.index, ..m };
    assert(ops[1] == BackendOp::DecrementIndex);
    assert(apply_front(ops, 2, b, input) == Some(BackendModel { machine: m, slots: s2 }));
    assert(ops[2] == BackendOp::StoreRegister);
    assert(apply_front(ops, 3, b, input) == Some(BackendModel { machine: m3, slots: s2 }));
}

/// The operations for the branch at the head of a loop go where the request goes.
pub proof fn lemma_branch_if_zero_carries_out(ir: Seq<IrOp>, m: MachineModel, slots: Slots, input: Seq<u8>)
    requires
        m.pc < ir.len(),
        ir[m.pc as int] is BranchIfZero,
    ensures
        carries_out(ir, m, slots, input),
{
    let ops = expand_spec(ir[m.pc as int]);
    let b = BackendModel { machine: m, slots };
    lemma_apply_all_unfolds(ops, b, input);
    let s1 = Slots { index: m.pointer, ..slots };
    assert(apply_front(ops, 0, b, input) == Some(b));
    assert(ops[0] == BackendOp::LoadRegister);
    assert(apply_front(ops, 1, b, input) == Some(BackendModel { machine: m, slots: s1 }));
    let s2 = Slots { address: m.pointer as int, ..s1 };
    assert(ops[1] == BackendOp::AddressCell);
    assert(apply_front(ops, 2, b, input) == Some(BackendModel { machine: m, slots: s2 }));
    let zero = ir[m.pc as int]->BranchIfZero_zero;
    let nonzero = ir[m.pc as int]->BranchIfZero_nonzero;
    assert(ops[2] == BackendOp::LoadCell);
    assert(ops[3] == BackendOp::CompareZero);
    assert(ops[4] == (BackendOp::Branch { then_block: zero, else_block: nonzero }));
    if 0 <= m.pointer < m.cells.len() {
        let s3 = Slots { value: m.cells[m.pointer as int], ..s2 };
        let s4 = Slots { condition: s3.value == 0, ..s3 };
        assert(apply_front(ops, 3, b, input) == Some(BackendModel { machine: m, slots: s3 }));
        assert(apply_front(ops, 4, b, input) == Some(BackendModel { machine: m, slots: s4 }));
        assert(apply_front(ops, 5, b, input) == Some(BackendModel { machine: m, slots: s4 }));
    } else {
        assert(apply_front(ops, 3, b, input) is None);
        assert(apply_front(ops, 4, b, input) is None);
        assert(apply_front(ops, 5, b, input) is None);
    }
}

/// The operations for the branch at the foot of a loop go where the request goes.
pub proof fn lemma_branch_if_nonzero_carries_out(ir: Seq<IrOp>, m: MachineModel, slots: Slots, input: Seq<u8>)
    requires
        m.pc < ir.len(),
        ir[m.pc as int] is BranchIfNonZero,
    ensures
        carries_out(ir, m, slots, input),
{
    let ops = expand_spec(ir[m.pc as int]);
    let b = BackendModel { machine: m, slots };
    lemma_apply_all_unfolds(ops, b, input);
    let s1 = Slots { index: m.pointer, ..slots };
    assert(apply_front(ops, 0, b, input) == Some(b));
    assert(ops[0] == BackendOp::LoadRegister);
    assert(apply_front(ops, 1, b, input) == Some(BackendModel { machine: m, slots: s1 }));
    let s2 = Slots { address: m.pointer as int, ..s1 };
    assert(ops[1] == BackendOp::AddressCell);
    assert(apply_front(ops, 2, b, input) == Some(BackendModel { machine: m, slots: s2 }));
    let zero = ir[m.pc as int]->BranchIfNonZero_zero;
    let nonzero = ir[m.pc as int]->BranchIfNonZero_nonzero;
    assert(ops[2] == BackendOp::LoadCell);
    assert(ops[3] == BackendOp::CompareNonZero);
    assert(ops[4] == (BackendOp::Branch { then_block: nonzero, else_block: zero }));
    if 0 <= m.pointer < m.cells.len() {
        let s3 = Slots { value: m.cells[m.pointer as int], ..s2 };
        let s4 = Slots { condition: s3.value != 0, ..s3 };
        assert(apply_front(ops, 3, b, input) == Some(BackendModel { machine: m, slots: s3 }));
        assert(apply_front(ops, 4, b, input) == Some(BackendModel { machine: m, slots: s4 }));
        assert(apply_front(ops, 5, b, input) == Some(BackendModel { machine: m, slots: s4 }));
    } else {
        assert(apply_front(ops, 3, b, input) is None);
        assert(apply_front(ops, 4, b, input) is None);
        assert(apply_front(ops, 5, b, input) is None);
    }
}

/// The operations for writing the cell out do what the request means.
pub proof fn lemma_output_carries_out(ir: Seq<IrOp>, m: MachineModel, slots: Slots, input: Seq<u8>)
    requires
        m.pc < ir.len(),
        ir[m.pc as int] is Output,
    ensures
        carries_out(ir, m, slots, input),
{
    let ops = expand_spec(ir[m.pc as int]);
    let b = BackendModel { machine: m, slots };
    lemma_apply_all_unfolds(ops, b, input);
    let s1 = Slots { index: m.pointer, ..slots };
    assert(apply_front(ops, 0, b, input) == Some(b));
    assert(ops[0] == BackendOp::LoadRegister);
    assert(apply_front(ops, 1, b, input) == Some(BackendModel { machine: m, slots: s1 }));
    let s2 = Slots { address: m.pointer as int, ..s1 };
    assert(ops[1] == BackendOp::AddressCell);
    assert(apply_front(ops, 2, b, input) == Some(BackendModel { machine: m, slots: s2 }));
    assert(ops[2] == BackendOp::LoadCell);
    assert(ops[3] == BackendOp::CallOutput);
    if 0 <= m.pointer < m.cells.len() {
        let s3 = Slots { value: m.cells[m.pointer as int], ..s2 };
        let m4 = MachineModel { output: m.output.push(s3.value), ..m };
        assert(apply_front(ops, 3, b, input) == Some(BackendModel { machine: m, slots: s3 }));
        assert(apply_front(ops, 4, b, input) == Some(BackendModel { machine: m4, slots: s3 }));
    } else {
        assert(apply_front(ops, 3, b, input) is None);
        assert(apply_front(ops, 4, b, input) is None);
    }
}

/// The operations for reading into the cell do what the request means.
pub proof fn lemma_input_carries_out(ir: Seq<IrOp>, m: MachineModel, slots: Slots, input: Seq<u8>)
    requires
        m.pc < ir.len(),
        ir[m.pc as int] is Input,
    ensures
        carries_out(ir, m, slots, input),
{
    let ops = expand_spec(ir[m.pc as int]);
    let b = BackendModel { machine: m, slots };
    lemma_apply_all_unfolds(ops, b, input);
    let s1 = Slots { index: m.pointer, ..slots };
    assert(apply_front(ops, 0, b, input) == Some(b));
    assert(ops[0] == BackendOp::LoadRegister);
    assert(apply_front(ops, 1, b, input) == Some(BackendModel { machine: m, slots: s1 }));
    let s2 = Slots { address: m.pointer as int, ..s1 };
    assert(ops[1] == BackendOp::AddressCell);
    assert(apply_front(ops, 2, b, input) == Some(BackendModel { machine: m, slots: s2 }));
    assert(ops[2] == BackendOp::CallInput);
    assert(ops[3] == BackendOp::StoreCell);
    let m3 = if m.consumed < input.len() {
        MachineModel { consumed: m.consumed + 1, ..m }
    } else {
        m
    };
    let s3 = if m.consumed < input.len() {
        Slots { value: input[m.consumed as int], ..s2 }
    } else {
        Slots { value: END_OF_INPUT, ..s2 }
    };
    assert(apply_front(ops, 3, b, input) == Some(BackendModel { machine: m3, slots: s3 }));
    if 0 <= m.pointer < m.cells.len() {
        let m4 = MachineModel { cells: m3.cells.update(m.pointer as int, s3.value), ..m3 };
        assert(apply_front(ops, 4, b, input) == Some(BackendModel { machine: m4, slots: s3 }));
    } else {
        assert(apply_front(ops, 4, b, input) is None);
    }
}

/// A request that is one operation of the interface is carried out by it.
pub proof fn lemma_single_operation_carries_out(
    ir: Seq<IrOp>,
    m: MachineModel,
    slots: Slots,
    input: Seq<u8>,
)
    requires
        m.pc < ir.len(),
        expand_spec(ir[m.pc as int]).len() == 1,
    ensures
        carries_out(ir, m, slots, input),
{
    let ops = expand_spec(ir[m.pc as int]);
    let b = BackendModel { machine: m, slots };
    lemma_apply_all_unfolds(ops, b, input);
    assert(apply_front(ops, 0, b, input) == Some(b));
    let f1 = apply_front(ops, 1, b, input);
    assert(apply_front(ops, 0, b, input) == Some(b));
    assert(f1 == apply_spec(ops[0], b, input));
    match execute_spec(ir, m, input) {
        StepModel::Next(m2) => {
            let after = apply_all(ops, b, input);
            assert(after is Some);
            assert(after->Some_0.machine.cells =~= m2.cells);
            assert(after->Some_0.machine.output =~= m2.output);
        },
        StepModel::Halted(h) => {},
    }
}

/// The interface operations of every request do what the request means.
pub proof fn lemma_expansion_carries_out(
    ir: Seq<IrOp>,
    m: MachineModel,
    slots: Slots,
    input: Seq<u8>,
)
    requires
        m.pc < ir.len(),
    ensures
        carries_out(ir, m, slots, input),
{
    match ir[m.pc as int] {
        IrOp::AddToCell(amount) => lemma_add_carries_out(ir, m, slots, input),
        IrOp::SubFromCell(amount) => lemma_sub_carries_out(ir, m, slots, input),
        IrOp::MovePointerRight => lemma_move_right_carries_out(ir, m, slots, input),
        IrOp::MovePointerLeft => lemma_move_left_carries_out(ir, m, slots, input),
        IrOp::BranchIfZero { zero, nonzero } => lemma_branch_if_zero_carries_out(
            ir,
            m,
            slots,
            input,
        ),
        IrOp::BranchIfNonZero { nonzero, zero } => lemma_branch_if_nonzero_carries_out(
            ir,
            m,
            slots,
            input,
        ),
        IrOp::Output => lemma_output_carries_out(ir, m, slots, input),
        IrOp::Input => lemma_input_carries_out(ir, m, slots, input),
        _ => lemma_single_operation_carries_out(ir, m, slots, input),
    }
}

} // verus!
