use vstd::prelude::*;

verus! {

/// Number of cells of the tape.
pub const TAPE_CELLS: u64 = 30000;

/// A handle to a basic block of the program under construction.
///
/// The program starts in `Entry`. The loop opened by the `k`-th `LoopStart`
/// of the stream (counted from zero) owns `LoopBody(k)` and `LoopExit(k)`.
#[derive(Clone, Copy, Debug, PartialEq, Eq, Structural)]
pub enum Block {
    Entry,
    LoopBody(usize),
    LoopExit(usize),
}

/// One request of the planned program. Each stands for a short, fixed
/// sequence of operations of the code generator's interface.
///
/// "The cell" is the tape cell that the pointer register selects. No request
/// checks the pointer against the extent of the tape.
#[derive(Clone, Copy, Debug, PartialEq, Eq, Structural)]
pub enum IrOp {
    /// Allocate a region of `cells` bytes, all zero.
    AllocTape { cells: u64 },
    /// Allocate the pointer register, a signed 64-bit cell index, set to zero.
    AllocPointer,
    /// Load the cell, add the amount with 8-bit wraparound, store it back.
    AddToCell(u8),
    /// Load the cell, subtract the amount with 8-bit wraparound, store it back.
    SubFromCell(u8),
    /// Load the pointer register, add one, store it back.
    MovePointerRight,
    /// Load the pointer register, subtract one, store it back.
    MovePointerLeft,
    /// Create a new, empty basic block.
    AppendBlock(Block),
    /// Load the cell and end the current block: go to `zero` if the cell is
    /// zero, to `nonzero` otherwise.
    BranchIfZero { zero: Block, nonzero: Block },
    /// Load the cell and end the current block: go to `nonzero` if the cell is
    /// not zero, to `zero` otherwise.
    BranchIfNonZero { nonzero: Block, zero: Block },
    /// Emit what follows at the end of the given block.
    PositionAt(Block),
    /// Load the cell and pass it to the character-output intrinsic.
    Output,
    /// Call the character-input intrinsic and store its result in the cell.
    Input,
    /// End the program with the given value.
    Return(u8),
}

/// Why a compilation failed. Each failure is final: no partial program is handed out.
#[derive(Clone, Copy, Debug, PartialEq, Eq, Structural)]
pub enum CompileError {
    /// The loop opened by the instruction at `index` is never closed.
    UnmatchedOpenBracket { index: usize },
    /// The `LoopEnd` at `index` closes no open loop.
    UnmatchedCloseBracket { index: usize },
    /// The code generator refused a request.
    BackendEmissionFailure,
}

/// The requests that every program starts with: the tape and its pointer.
pub open spec fn prologue() -> Seq<IrOp> {
    seq![IrOp::AllocTape { cells: TAPE_CELLS }, IrOp::AllocPointer]
}

/// A run's count reduced to the width of a cell.
pub open spec fn cell_amount(n: u64) -> u8 {
    (n % 256) as u8
}

} // verus!
