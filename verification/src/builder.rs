use vstd::prelude::*;
use crate::operator::Operator;
use crate::ir::{Block, IrOp, CompileError, prologue, cell_amount, TAPE_CELLS};
use crate::nesting::{balanced, lemma_build_outcome};
use crate::control::{
    blocks_created_first, lemma_built_creates_first, lemma_built_well_formed, well_formed,
};

verus! {

/// An open loop: its two blocks, and the index of the `LoopStart` that opened it.
#[derive(Clone, Copy, Debug, PartialEq, Eq, Structural)]
pub struct LoopMarker {
    pub entry: Block,
    pub exit: Block,
    pub opened_at: usize,
}

/// The state of the control-flow builder as a mathematical value.
pub struct BuilderModel {
    /// The requests made so far, in order.
    pub emitted: Seq<IrOp>,
    /// The block that the next request is emitted into.
    pub cursor: Block,
    /// The open loops, innermost last.
    pub stack: Seq<LoopMarker>,
    /// How many loops were opened so far.
    pub loops: usize,
    /// How many instructions were consumed so far.
    pub consumed: usize,
}

/// The builder before the first instruction: the prologue is emitted, the
/// cursor stands in the entry block, and no loop is open.
pub open spec fn initial() -> BuilderModel {
    BuilderModel { emitted: prologue(), cursor: Block::Entry, stack: Seq::empty(), loops: 0, consumed: 0 }
}

/// The state after straight-line requests `ops` for one instruction.
pub open spec fn emit(m: BuilderModel, ops: Seq<IrOp>) -> BuilderModel {
    BuilderModel { emitted: m.emitted + ops, consumed: (m.consumed + 1) as usize, ..m }
}

/// The marker of the loop that a `LoopStart` opens in state `m`.
pub open spec fn marker_for(m: BuilderModel) -> LoopMarker {
    LoopMarker {
        entry: Block::LoopBody(m.loops),
        exit: Block::LoopExit(m.loops),
        opened_at: m.consumed,
    }
}

/// The requests for a `LoopStart` that opens the loop `t`: skip the body if
/// the cell is zero, then go on in the body.
pub open spec fn open_loop(t: LoopMarker) -> Seq<IrOp> {
    seq![
        IrOp::AppendBlock(t.entry),
        IrOp::AppendBlock(t.exit),
        IrOp::BranchIfZero { zero: t.exit, nonzero: t.entry },
        IrOp::PositionAt(t.entry),
    ]
}

/// The requests for the `LoopEnd` that closes the loop `t`: repeat the body
/// if the cell is not zero, then go on behind the loop.
pub open spec fn close_loop(t: LoopMarker) -> Seq<IrOp> {
    seq![IrOp::BranchIfNonZero { nonzero: t.entry, zero: t.exit }, IrOp::PositionAt(t.exit)]
}

/// One transition of the builder: the state after instruction `op`, or the
/// failure of a `LoopEnd` that finds no loop open.
pub open spec fn step_spec(m: BuilderModel, op: Operator) -> Result<BuilderModel, CompileError> {
    match op {
        Operator::IncrementBy(n) => Ok(emit(m, seq![IrOp::AddToCell(cell_amount(n))])),
        Operator::DecrementBy(n) => Ok(emit(m, seq![IrOp::SubFromCell(cell_amount(n))])),
        Operator::MoveRight => Ok(emit(m, seq![IrOp::MovePointerRight])),
        Operator::MoveLeft => Ok(emit(m, seq![IrOp::MovePointerLeft])),
        Operator::Output => Ok(emit(m, seq![IrOp::Output])),
        Operator::Input => Ok(emit(m, seq![IrOp::Input])),
        Operator::LoopStart => {
            let t = marker_for(m);
            Ok(
                BuilderModel {
                    emitted: m.emitted + open_loop(t),
                    cursor: t.entry,
                    stack: m.stack.push(t),
                    loops: (m.loops + 1) as usize,
                    consumed: (m.consumed + 1) as usize,
                },
            )
        },
        Operator::LoopEnd => {
            if m.stack.len() == 0 {
                Err(CompileError::UnmatchedCloseBracket { index: m.consumed })
            } else {
                let t = m.stack.last();
                Ok(
                    BuilderModel {
                        emitted: m.emitted + close_loop(t),
                        cursor: t.exit,
                        stack: m.stack.drop_last(),
                        loops: m.loops,
                        consumed: (m.consumed + 1) as usize,
                    },
                )
            }
        },
    }
}

/// The end of the stream in state `m`: the finished program, or the failure
/// of a loop that is still open (the innermost one is reported).
pub open spec fn finish_spec(m: BuilderModel) -> Result<Seq<IrOp>, CompileError> {
    if m.stack.len() > 0 {
        Err(CompileError::UnmatchedOpenBracket { index: m.stack.last().opened_at })
    } else {
        Ok(m.emitted.push(IrOp::Return(0)))
    }
}

/// The state after the whole of `ops`, or the first failure on the way.
pub open spec fn run_spec(ops: Seq<Operator>) -> Result<BuilderModel, CompileError>
    decreases ops.len(),
{
    if ops.len() == 0 {
        Ok(initial())
    } else {
        match run_spec(ops.drop_last()) {
            Ok(m) => step_spec(m, ops.last()),
            Err(e) => Err(e),
        }
    }
}

/// The program for the instruction stream `ops`, or why there is none.
pub open spec fn build_spec(ops: Seq<Operator>) -> Result<Seq<IrOp>, CompileError> {
    match run_spec(ops) {
        Ok(m) => finish_spec(m),
        Err(e) => Err(e),
    }
}

/// Whether the builder's counters are consistent: no more loops were opened
/// than instructions consumed.
pub open spec fn counters_ok(m: BuilderModel) -> bool {
    m.loops <= m.consumed
}

/// The control-flow builder: a cursor, the stack of open loops, and the
/// requests made so far.
pub struct Builder {
    emitted: Vec<IrOp>,
    cursor: Block,
    stack: Vec<LoopMarker>,
    loops: usize,
    consumed: usize,
}

impl View for Builder {
    type V = BuilderModel;

    closed spec fn view(&self) -> BuilderModel {
        BuilderModel {
            emitted: self.emitted@,
            cursor: self.cursor,
            stack: self.stack@,
            loops: self.loops,
            consumed: self.consumed,
        }
    }
}

impl Builder {
    /// A builder at the start of a program.
    pub fn new() -> (r: Builder)
        ensures
            r@ == initial(),
            counters_ok(r@),
    {
        let mut emitted: Vec<IrOp> = Vec::new();
        emitted.push(IrOp::AllocTape { cells: TAPE_CELLS });
        emitted.push(IrOp::AllocPointer);
        let r = Builder { emitted, cursor: Block::Entry, stack: Vec::new(), loops: 0, consumed: 0 };
        assert(r@.emitted =~= prologue());
        assert(r@.stack =~= Seq::<LoopMarker>::empty());
        r
    }

    /// The block that the next request goes into.
    pub fn cursor(&self) -> (r: Block)
        ensures
            r == self@.cursor,
    {
        self.cursor
    }

    /// The number of loops that are open.
    pub fn depth(&self) -> (r: usize)
        ensures
            r == self@.stack.len(),
    {
        self.stack.len()
    }

    /// Consumes one instruction. On failure the builder is left as it was.
    pub fn step(&mut self, op: Operator) -> (r: Result<(), CompileError>)
        requires
            counters_ok(old(self)@),
            old(self)@.consumed < usize::MAX,
        ensures
            match r {
                Ok(()) => step_spec(old(self)@, op) == Ok::<BuilderModel, CompileError>(final(self)@),
                Err(e) => step_spec(old(self)@, op) == Err::<BuilderModel, CompileError>(e)
                    && final(self)@ == old(self)@,
            },
            r is Ok ==> counters_ok(final(self)@),
    {
        let ghost before = self@;
        match op {
            Operator::IncrementBy(n) => {
                self.emitted.push(IrOp::AddToCell((n % 256) as u8));
                assert(self.emitted@ =~= before.emitted + seq![IrOp::AddToCell(cell_amount(n))]);
            },
            Operator::DecrementBy(n) => {
                self.emitted.push(IrOp::SubFromCell((n % 256) as u8));
                assert(self.emitted@ =~= before.emitted + seq![IrOp::SubFromCell(cell_amount(n))]);
            },
            Operator::MoveRight => {
                self.emitted.push(IrOp::MovePointerRight);
                assert(self.emitted@ =~= before.emitted + seq![IrOp::MovePointerRight]);
            },
            Operator::MoveLeft => {
                self.emitted.push(IrOp::MovePointerLeft);
                assert(self.emitted@ =~= before.emitted + seq![IrOp::MovePointerLeft]);
            },
            Operator::Output => {
                self.emitted.push(IrOp::Output);
                assert(self.emitted@ =~= before.emitted + seq![IrOp::Output]);
            },
            Operator::Input => {
                self.emitted.push(IrOp::Input);
                assert(self.emitted@ =~= before.emitted + seq![IrOp::Input]);
            },
            Operator::LoopStart => {
                let t = LoopMarker {
                    entry: Block::LoopBody(self.loops),
                    exit: Block::LoopExit(self.loops),
                    opened_at: self.consumed,
                };
                self.emitted.push(IrOp::AppendBlock(t.entry));
                self.emitted.push(IrOp::AppendBlock(t.exit));
                self.emitted.push(IrOp::BranchIfZero { zero: t.exit, nonzero: t.entry });
                self.emitted.push(IrOp::PositionAt(t.entry));
                assert(self.emitted@ =~= before.emitted + open_loop(t));
                self.cursor = t.entry;
                self.stack.push(t);
                self.loops = self.loops + 1;
            },
            Operator::LoopEnd => {
                match self.stack.pop() {
                    None => {
                        assert(self.stack@ =~= before.stack);
                        return Err(CompileError::UnmatchedCloseBracket { index: self.consumed });
                    },
                    Some(t) => {
                        self.emitted.push(IrOp::BranchIfNonZero { nonzero: t.entry, zero: t.exit });
                        self.emitted.push(IrOp::PositionAt(t.exit));
                        assert(self.emitted@ =~= before.emitted + close_loop(t));
                        assert(self.stack@ =~= before.stack.drop_last());
                        self.cursor = t.exit;
                    },
                }
            },
        }
        self.consumed = self.consumed + 1;
        Ok(())
    }

    /// Ends the stream: hands out the finished program, closed by the return
    /// request, or reports the innermost loop that is still open.
    pub fn finish(self) -> (r: Result<Vec<IrOp>, CompileError>)
        ensures
            match r {
                Ok(v) => finish_spec(self@) == Ok::<Seq<IrOp>, CompileError>(v@),
                Err(e) => finish_spec(self@) == Err::<Seq<IrOp>, CompileError>(e),
            },
    {
        let n: usize = self.stack.len();
        if n > 0 {
            Err(CompileError::UnmatchedOpenBracket { index: self.stack[n - 1].opened_at })
        } else {
            let mut emitted = self.emitted;
            emitted.push(IrOp::Return(0));
            Ok(emitted)
        }
    }
}

/// Walks the instruction stream and plans the program: straight-line requests
/// for the cell and pointer instructions, and for each loop a pair of blocks
/// with its two conditional branches.
pub fn build(ops: &Vec<Operator>) -> (r: Result<Vec<IrOp>, CompileError>)
    ensures
        match r {
            Ok(v) => build_spec(ops@) == Ok::<Seq<IrOp>, CompileError>(v@) && well_formed(v@)
                && blocks_created_first(v@),
            Err(e) => build_spec(ops@) == Err::<Seq<IrOp>, CompileError>(e),
        },
        r is Ok <==> balanced(ops@),
{
    let total: usize = ops.len();
    let mut builder = Builder::new();
    let mut i: usize = 0;
    while i < total
        invariant
            0 <= i <= total,
            total == ops.len(),
            run_spec(ops@.take(i as int)) == Ok::<BuilderModel, CompileError>(builder@),
            counters_ok(builder@),
            builder@.consumed == i,
        decreases total - i,
    {
        proof {
            assert(ops@.take(i + 1).drop_last() =~= ops@.take(i as int));
            assert(ops@.take(i + 1).last() == ops@[i as int]);
        }
        match builder.step(ops[i]) {
            Ok(()) => {},
            Err(e) => {
                proof {
                    lemma_failure_stays(ops@, i + 1);
                    lemma_build_outcome(ops@);
                }
                return Err(e);
            },
        }
        i = i + 1;
    }
    proof {
        assert(ops@.take(ops@.len() as int) =~= ops@);
        lemma_build_outcome(ops@);
        if build_spec(ops@) is Ok {
            lemma_built_well_formed(ops@);
            lemma_built_creates_first(ops@);
        }
    }
    builder.finish()
}

/// Once the builder has failed on a front of the stream, it has failed on the whole.
pub proof fn lemma_failure_stays(ops: Seq<Operator>, k: int)
    requires
        0 <= k <= ops.len(),
        run_spec(ops.take(k)) is Err,
    ensures
        run_spec(ops) == run_spec(ops.take(k)),
    decreases ops.len() - k,
{
    if k < ops.len() {
        assert(ops.take(k + 1).drop_last() =~= ops.take(k));
        lemma_failure_stays(ops, k + 1);
    } else {
        assert(ops.take(k) =~= ops);
    }
}

} // verus!
