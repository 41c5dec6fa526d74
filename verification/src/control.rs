use vstd::prelude::*;
use crate::operator::Operator;
use crate::ir::{Block, IrOp};
use crate::builder::{
    BuilderModel, LoopMarker, build_spec, close_loop, initial, marker_for, open_loop, run_spec,
    step_spec,
};
use crate::machine::{
    Halt, MachineModel, StepModel, execute_spec, find_block_spec, jump, power_on, run_from,
};

verus! {

/// Whether the request ends a block with a conditional branch.
pub open spec fn is_branch(op: IrOp) -> bool {
    op is BranchIfZero || op is BranchIfNonZero
}

/// Whether some request of the program positions at the block.
pub open spec fn positioned(ir: Seq<IrOp>, block: Block) -> bool {
    exists|i: int| 0 <= i < ir.len() && #[trigger] ir[i] == IrOp::PositionAt(block)
}

/// Whether the block is the exit of a loop that is still open.
pub open spec fn pending(stack: Seq<LoopMarker>, block: Block) -> bool {
    exists|j: int| 0 <= j < stack.len() && (#[trigger] stack[j]).exit == block
}

/// Whether the block is started in the program, or will be when its loop is closed.
pub open spec fn target_ok(ir: Seq<IrOp>, stack: Seq<LoopMarker>, block: Block) -> bool {
    positioned(ir, block) || pending(stack, block)
}

/// Whether both targets of a branch are accounted for; true of every other request.
pub open spec fn targets_ok(ir: Seq<IrOp>, stack: Seq<LoopMarker>, op: IrOp) -> bool {
    match op {
        IrOp::BranchIfZero { zero, nonzero } => target_ok(ir, stack, zero) && target_ok(
            ir,
            stack,
            nonzero,
        ),
        IrOp::BranchIfNonZero { nonzero, zero } => target_ok(ir, stack, zero) && target_ok(
            ir,
            stack,
            nonzero,
        ),
        _ => true,
    }
}

/// Whether the request at `i` starts a block.
pub open spec fn starts_block(ir: Seq<IrOp>, i: int) -> bool {
    0 <= i < ir.len() && ir[i] is PositionAt
}

/// Whether every block starts right behind a branch and holds a request.
pub open spec fn blocks_in_order(ir: Seq<IrOp>) -> bool {
    forall|i: int| #[trigger]
        starts_block(ir, i) ==> {
            &&& i > 0
            &&& is_branch(ir[i - 1])
            &&& i + 1 < ir.len() ==> !(ir[i + 1] is PositionAt)
        }
}

/// Whether a program is a sound control-flow graph: it ends with a return,
/// every block starts behind a branch and is not empty, and every branch
/// goes to blocks that the program starts.
pub open spec fn well_formed(ir: Seq<IrOp>) -> bool {
    &&& ir.len() > 0
    &&& ir.last() is Return
    &&& blocks_in_order(ir)
    &&& forall|i: int| 0 <= i < ir.len() ==> targets_ok(ir, Seq::empty(), #[trigger] ir[i])
}

/// What holds of the builder between two instructions: the blocks emitted so
/// far are in order, every branch goes to a block that is started or is the
/// exit of an open loop, and the body of every open loop is started.
pub open spec fn under_construction(m: BuilderModel) -> bool {
    &&& m.emitted.len() > 0
    &&& blocks_in_order(m.emitted)
    &&& forall|i: int|
        0 <= i < m.emitted.len() ==> targets_ok(m.emitted, m.stack, #[trigger] m.emitted[i])
    &&& forall|j: int| 0 <= j < m.stack.len() ==> positioned(m.emitted, (#[trigger] m.stack[j]).entry)
}

/// Whether the machine stands at a request that can be carried out.
pub open spec fn at_request(ir: Seq<IrOp>, m: MachineModel) -> bool {
    m.pc < ir.len() && !(ir[m.pc as int] is PositionAt)
}

/// A block that is started stays started when requests are appended.
pub proof fn lemma_positioned_append(ir: Seq<IrOp>, added: Seq<IrOp>, block: Block)
    requires
        positioned(ir, block),
    ensures
        positioned(ir + added, block),
{
    let i = choose|i: int| 0 <= i < ir.len() && #[trigger] ir[i] == IrOp::PositionAt(block);
    assert((ir + added)[i] == IrOp::PositionAt(block));
}

/// A block that the appended requests start is started.
pub proof fn lemma_positioned_new(ir: Seq<IrOp>, added: Seq<IrOp>, block: Block, k: int)
    requires
        0 <= k < added.len(),
        added[k] == IrOp::PositionAt(block),
    ensures
        positioned(ir + added, block),
{
    assert((ir + added)[ir.len() + k] == IrOp::PositionAt(block));
}

/// Appending requests keeps the blocks in order, if the appended requests
/// start no block but behind a branch of their own and leave none empty.
pub proof fn lemma_append_in_order(ir: Seq<IrOp>, added: Seq<IrOp>)
    requires
        ir.len() > 0,
        blocks_in_order(ir),
        added.len() > 0,
        !(added[0] is PositionAt),
        forall|k: int| #[trigger]
            starts_block(added, k) ==> {
                &&& k > 0
                &&& is_branch(added[k - 1])
                &&& k + 1 < added.len() ==> !(added[k + 1] is PositionAt)
            },
    ensures
        blocks_in_order(ir + added),
{
    let all = ir + added;
    assert forall|i: int| #[trigger] starts_block(all, i) implies {
        &&& i > 0
        &&& is_branch(all[i - 1])
        &&& i + 1 < all.len() ==> !(all[i + 1] is PositionAt)
    } by {
        if i < ir.len() {
            assert(all[i] == ir[i]);
            assert(starts_block(ir, i));
            assert(all[i - 1] == ir[i - 1]);
            if i + 1 < ir.len() {
                assert(all[i + 1] == ir[i + 1]);
            } else {
                assert(all[i + 1] == added[0]);
            }
        } else {
            let k = i - ir.len();
            assert(all[i] == added[k]);
            assert(starts_block(added, k));
            assert(all[i - 1] == added[k - 1]);
            if i + 1 < all.len() {
                assert(all[i + 1] == added[k + 1]);
            }
        }
    }
}

/// Where a block is started, the search for it finds a request that starts it.
pub proof fn lemma_find_block(ir: Seq<IrOp>, block: Block, from: int, i: int)
    requires
        0 <= from <= i < ir.len(),
        ir[i] == IrOp::PositionAt(block),
    ensures
        find_block_spec(ir, block, from) is Some,
        from <= find_block_spec(ir, block, from)->Some_0 < ir.len(),
        ir[find_block_spec(ir, block, from)->Some_0] == IrOp::PositionAt(block),
    decreases ir.len() - from,
{
    if ir[from] != IrOp::PositionAt(block) {
        lemma_find_block(ir, block, from + 1, i);
    }
}

/// One instruction keeps the builder's blocks and branches in order.
pub proof fn lemma_step_keeps_order(m: BuilderModel, op: Operator)
    requires
        under_construction(m),
        step_spec(m, op) is Ok,
    ensures
        under_construction(step_spec(m, op)->Ok_0),
{
    let m2 = step_spec(m, op)->Ok_0;
    let added = match op {
        Operator::LoopStart => open_loop(marker_for(m)),
        Operator::LoopEnd => close_loop(m.stack.last()),
        _ => m2.emitted.skip(m.emitted.len() as int),
    };
    assert(m2.emitted =~= m.emitted + added);
    assert(added.len() > 0 && !(added[0] is PositionAt));
    assert forall|k: int| #[trigger] starts_block(added, k) implies {
        &&& k > 0
        &&& is_branch(added[k - 1])
        &&& k + 1 < added.len() ==> !(added[k + 1] is PositionAt)
    } by {
        match op {
            Operator::LoopStart => {
                assert(k == 3);
            },
            Operator::LoopEnd => {
                assert(k == 1);
            },
            _ => {},
        }
    }
    lemma_append_in_order(m.emitted, added);
    assert forall|b: Block| target_ok(m.emitted, m.stack, b) implies target_ok(
        m2.emitted,
        m2.stack,
        b,
    ) by {
        if positioned(m.emitted, b) {
            lemma_positioned_append(m.emitted, added, b);
        } else {
            let j = choose|j: int| 0 <= j < m.stack.len() && (#[trigger] m.stack[j]).exit == b;
            match op {
                Operator::LoopStart => {
                    assert(m2.stack[j].exit == b);
                },
                Operator::LoopEnd => {
                    if j == m.stack.len() - 1 {
                        lemma_positioned_new(m.emitted, added, b, 1);
                    } else {
                        assert(m2.stack[j].exit == b);
                    }
                },
                _ => {
                    assert(m2.stack[j].exit == b);
                },
            }
        }
    }
    match op {
        Operator::LoopStart => {
            let t = marker_for(m);
            lemma_positioned_new(m.emitted, added, t.entry, 3);
            assert(m2.stack[m2.stack.len() - 1].exit == t.exit);
            assert(pending(m2.stack, t.exit));
        },
        Operator::LoopEnd => {
            let t = m.stack.last();
            assert(positioned(m.emitted, m.stack[m.stack.len() - 1].entry));
            lemma_positioned_append(m.emitted, added, t.entry);
            lemma_positioned_new(m.emitted, added, t.exit, 1);
        },
        _ => {},
    }
    assert forall|i: int| 0 <= i < m2.emitted.len() implies targets_ok(
        m2.emitted,
        m2.stack,
        #[trigger] m2.emitted[i],
    ) by {
        if i < m.emitted.len() {
            assert(m2.emitted[i] == m.emitted[i]);
            assert(targets_ok(m.emitted, m.stack, m.emitted[i]));
        } else {
            assert(m2.emitted[i] == added[i - m.emitted.len()]);
        }
    }
    assert forall|j: int| 0 <= j < m2.stack.len() implies positioned(
        m2.emitted,
        (#[trigger] m2.stack[j]).entry,
    ) by {
        if j < m.stack.len() {
            assert(m2.stack[j] == m.stack[j]);
            lemma_positioned_append(m.emitted, added, m.stack[j].entry);
        }
    }
}

/// Whatever stream the builder gets through, its blocks and branches are in order.
pub proof fn lemma_run_keeps_order(ops: Seq<Operator>)
    requires
        run_spec(ops) is Ok,
    ensures
        under_construction(run_spec(ops)->Ok_0),
    decreases ops.len(),
{
    if ops.len() == 0 {
        let m = initial();
        assert(m.emitted.len() == 2);
        assert(!starts_block(m.emitted, 0) && !starts_block(m.emitted, 1));
        assert(!is_branch(m.emitted[0]) && !is_branch(m.emitted[1]));
    } else {
        lemma_run_keeps_order(ops.drop_last());
        lemma_step_keeps_order(run_spec(ops.drop_last())->Ok_0, ops.last());
    }
}

/// Every program that the builder hands out is a sound control-flow graph.
pub proof fn lemma_built_well_formed(ops: Seq<Operator>)
    requires
        build_spec(ops) is Ok,
    ensures
        well_formed(build_spec(ops)->Ok_0),
{
    lemma_run_keeps_order(ops);
    let m = run_spec(ops)->Ok_0;
    let ir = build_spec(ops)->Ok_0;
    let added = seq![IrOp::Return(0)];
    assert(ir =~= m.emitted + added);
    assert(!starts_block(added, 0));
    lemma_append_in_order(m.emitted, added);
    assert forall|i: int| 0 <= i < ir.len() implies targets_ok(
        ir,
        Seq::empty(),
        #[trigger] ir[i],
    ) by {
        if i < m.emitted.len() {
            assert(ir[i] == m.emitted[i]);
            assert(targets_ok(m.emitted, m.stack, m.emitted[i]));
            assert forall|b: Block| target_ok(m.emitted, m.stack, b) implies positioned(ir, b) by {
                lemma_positioned_append(m.emitted, added, b);
            }
        }
    }
}

/// In a sound program, a branch lands on a request that can be carried out.
pub proof fn lemma_jump_lands(ir: Seq<IrOp>, m: MachineModel, block: Block)
    requires
        well_formed(ir),
        target_ok(ir, Seq::empty(), block),
    ensures
        jump(ir, m, block) is Next,
        at_request(ir, jump(ir, m, block)->Next_0),
{
    let i = choose|i: int| 0 <= i < ir.len() && #[trigger] ir[i] == IrOp::PositionAt(block);
    lemma_find_block(ir, block, 0, i);
    let k = find_block_spec(ir, block, 0)->Some_0;
    assert(starts_block(ir, k));
    assert(!(ir[k] is Return));
}

/// In a sound program, a request that can be carried out leads to another
/// such request, or to a halt that is no fault of the program's shape.
pub proof fn lemma_step_stays_on_requests(ir: Seq<IrOp>, m: MachineModel, input: Seq<u8>)
    requires
        well_formed(ir),
        at_request(ir, m),
    ensures
        match execute_spec(ir, m, input) {
            StepModel::Next(m2) => at_request(ir, m2),
            StepModel::Halted(h) => h != Halt::Malformed,
        },
{
    let op = ir[m.pc as int];
    assert(targets_ok(ir, Seq::empty(), op));
    match op {
        IrOp::BranchIfZero { zero, nonzero } => {
            lemma_jump_lands(ir, m, zero);
            lemma_jump_lands(ir, m, nonzero);
        },
        IrOp::BranchIfNonZero { nonzero, zero } => {
            lemma_jump_lands(ir, m, zero);
            lemma_jump_lands(ir, m, nonzero);
        },
        IrOp::Return(value) => {},
        _ => {
            assert(m.pc + 1 < ir.len());
            if ir[m.pc as int + 1] is PositionAt {
                assert(starts_block(ir, m.pc as int + 1));
            }
        },
    }
}

/// A sound program never halts for its shape, from any request that can be carried out.
pub proof fn lemma_run_stays_on_requests(
    ir: Seq<IrOp>,
    m: MachineModel,
    input: Seq<u8>,
    fuel: nat,
)
    requires
        well_formed(ir),
        at_request(ir, m),
    ensures
        run_from(ir, m, input, fuel).halt != Halt::Malformed,
    decreases fuel,
{
    if fuel > 0 {
        lemma_step_stays_on_requests(ir, m, input);
        match execute_spec(ir, m, input) {
            StepModel::Next(m2) => {
                lemma_run_stays_on_requests(ir, m2, input, (fuel - 1) as nat);
            },
            StepModel::Halted(h) => {},
        }
    }
}

/// A program that the builder hands out never runs past its end, never
/// falls into the start of a block, and never branches to a block that does
/// not exist: on every input it returns, leaves the tape, or is still
/// running when the fuel is used up.
pub proof fn lemma_built_program_runs(ops: Seq<Operator>, input: Seq<u8>, fuel: nat)
    requires
        build_spec(ops) is Ok,
    ensures
        run_from(build_spec(ops)->Ok_0, power_on(), input, fuel).halt != Halt::Malformed,
{
    lemma_built_well_formed(ops);
    let ir = build_spec(ops)->Ok_0;
    assert(!starts_block(ir, 0));
    lemma_run_stays_on_requests(ir, power_on(), input, fuel);
}

/// Whether a request before position `i` creates the block.
pub open spec fn created_before(ir: Seq<IrOp>, i: int, block: Block) -> bool {
    exists|j: int| 0 <= j < i && j < ir.len() && #[trigger] ir[j] == IrOp::AppendBlock(block)
}

/// Whether every block that the request at `i` names was created before it.
pub open spec fn names_created(ir: Seq<IrOp>, i: int) -> bool {
    match ir[i] {
        IrOp::BranchIfZero { zero, nonzero } => created_before(ir, i, zero) && created_before(
            ir,
            i,
            nonzero,
        ),
        IrOp::BranchIfNonZero { nonzero, zero } => created_before(ir, i, zero) && created_before(
            ir,
            i,
            nonzero,
        ),
        IrOp::PositionAt(block) => created_before(ir, i, block),
        _ => true,
    }
}

/// Whether the program creates every block before it branches to it or
/// positions at it, so that the code generator never meets an unknown block.
pub open spec fn blocks_created_first(ir: Seq<IrOp>) -> bool {
    forall|i: int| 0 <= i < ir.len() ==> #[trigger] names_created(ir, i)
}

/// What holds of the builder between two instructions: every block that was
/// named was created before, and so were the blocks of every open loop.
pub open spec fn creating_first(m: BuilderModel) -> bool {
    &&& blocks_created_first(m.emitted)
    &&& forall|j: int|
        0 <= j < m.stack.len() ==> created_before(
            m.emitted,
            m.emitted.len() as int,
            (#[trigger] m.stack[j]).entry,
        ) && created_before(m.emitted, m.emitted.len() as int, m.stack[j].exit)
}

/// A block that was created stays created when requests are appended, and
/// at every later position.
pub proof fn lemma_created_stays(ir: Seq<IrOp>, added: Seq<IrOp>, i: int, later: int, block: Block)
    requires
        created_before(ir, i, block),
        i <= later,
    ensures
        created_before(ir + added, later, block),
{
    let j = choose|j: int| 0 <= j < i && j < ir.len() && #[trigger] ir[j] == IrOp::AppendBlock(block);
    assert((ir + added)[j] == IrOp::AppendBlock(block));
}

/// A block that the appended requests create is created behind them.
pub proof fn lemma_created_new(ir: Seq<IrOp>, added: Seq<IrOp>, k: int, later: int, block: Block)
    requires
        0 <= k < added.len(),
        added[k] == IrOp::AppendBlock(block),
        ir.len() + k < later,
    ensures
        created_before(ir + added, later, block),
{
    assert((ir + added)[ir.len() + k] == IrOp::AppendBlock(block));
}

/// One instruction keeps every named block created first.
pub proof fn lemma_step_creates_first(m: BuilderModel, op: Operator)
    requires
        creating_first(m),
        step_spec(m, op) is Ok,
    ensures
        creating_first(step_spec(m, op)->Ok_0),
{
    let m2 = step_spec(m, op)->Ok_0;
    let old_len = m.emitted.len() as int;
    let added = match op {
        Operator::LoopStart => open_loop(marker_for(m)),
        Operator::LoopEnd => close_loop(m.stack.last()),
        _ => m2.emitted.skip(old_len),
    };
    assert(m2.emitted =~= m.emitted + added);
    let new_len = m2.emitted.len() as int;
    if op == Operator::LoopStart {
        let t = marker_for(m);
        lemma_created_new(m.emitted, added, 0, old_len + 2, t.entry);
        lemma_created_new(m.emitted, added, 1, old_len + 2, t.exit);
        lemma_created_new(m.emitted, added, 0, old_len + 3, t.entry);
        lemma_created_new(m.emitted, added, 0, new_len, t.entry);
        lemma_created_new(m.emitted, added, 1, new_len, t.exit);
    }
    if op == Operator::LoopEnd {
        let t = m.stack[m.stack.len() - 1];
        lemma_created_stays(m.emitted, added, old_len, old_len, t.entry);
        lemma_created_stays(m.emitted, added, old_len, old_len, t.exit);
        lemma_created_stays(m.emitted, added, old_len, old_len + 1, t.exit);
    }
    assert forall|i: int| 0 <= i < new_len implies #[trigger] names_created(m2.emitted, i) by {
        if i < old_len {
            assert(m2.emitted[i] == m.emitted[i]);
            assert(names_created(m.emitted, i));
            match m.emitted[i] {
                IrOp::BranchIfZero { zero, nonzero } => {
                    lemma_created_stays(m.emitted, added, i, i, zero);
                    lemma_created_stays(m.emitted, added, i, i, nonzero);
                },
                IrOp::BranchIfNonZero { nonzero, zero } => {
                    lemma_created_stays(m.emitted, added, i, i, zero);
                    lemma_created_stays(m.emitted, added, i, i, nonzero);
                },
                IrOp::PositionAt(block) => {
                    lemma_created_stays(m.emitted, added, i, i, block);
                },
                _ => {},
            }
        } else {
            assert(m2.emitted[i] == added[i - old_len]);
        }
    }
    assert forall|j: int| 0 <= j < m2.stack.len() implies created_before(
        m2.emitted,
        new_len,
        (#[trigger] m2.stack[j]).entry,
    ) && created_before(m2.emitted, new_len, m2.stack[j].exit) by {
        if j < m.stack.len() {
            assert(m2.stack[j] == m.stack[j]);
            lemma_created_stays(m.emitted, added, old_len, new_len, m.stack[j].entry);
            lemma_created_stays(m.emitted, added, old_len, new_len, m.stack[j].exit);
        }
    }
}

/// Whatever stream the builder gets through, every named block was created first.
pub proof fn lemma_run_creates_first(ops: Seq<Operator>)
    requires
        run_spec(ops) is Ok,
    ensures
        creating_first(run_spec(ops)->Ok_0),
    decreases ops.len(),
{
    if ops.len() == 0 {
        let m = initial();
        assert forall|i: int| 0 <= i < m.emitted.len() implies #[trigger] names_created(
            m.emitted,
            i,
        ) by {
            assert(i == 0 || i == 1);
        }
    } else {
        lemma_run_creates_first(ops.drop_last());
        lemma_step_creates_first(run_spec(ops.drop_last())->Ok_0, ops.last());
    }
}

/// Every program that the builder hands out creates each block before it
/// branches to it or positions at it.
pub proof fn lemma_built_creates_first(ops: Seq<Operator>)
    requires
        build_spec(ops) is Ok,
    ensures
        blocks_created_first(build_spec(ops)->Ok_0),
{
    lemma_run_creates_first(ops);
    let m = run_spec(ops)->Ok_0;
    let ir = build_spec(ops)->Ok_0;
    let added = seq![IrOp::Return(0)];
    assert(ir =~= m.emitted + added);
    assert forall|i: int| 0 <= i < ir.len() implies #[trigger] names_created(ir, i) by {
        if i < m.emitted.len() {
            assert(ir[i] == m.emitted[i]);
            assert(names_created(m.emitted, i));
            match m.emitted[i] {
                IrOp::BranchIfZero { zero, nonzero } => {
                    lemma_created_stays(m.emitted, added, i, i, zero);
                    lemma_created_stays(m.emitted, added, i, i, nonzero);
                },
                IrOp::BranchIfNonZero { nonzero, zero } => {
                    lemma_created_stays(m.emitted, added, i, i, zero);
                    lemma_created_stays(m.emitted, added, i, i, nonzero);
                },
                IrOp::PositionAt(block) => {
                    lemma_created_stays(m.emitted, added, i, i, block);
                },
                _ => {},
            }
        }
    }
}

} // verus!
