use bfc::compile::compile;
use bfc::emission::{expand_into, lower, BackendOp};
use bfc::ir::{Block, IrOp};

fn expand(op: IrOp) -> Vec<BackendOp> {
    let mut out = Vec::new();
    expand_into(op, &mut out);
    out
}

#[test]
fn allocation_requests_are_single_operations() {
    assert_eq!(
        expand(IrOp::AllocTape { cells: 30000 }),
        vec![BackendOp::AllocateRegion { cells: 30000 }]
    );
    assert_eq!(expand(IrOp::AllocPointer), vec![BackendOp::AllocateRegister]);
    assert_eq!(expand(IrOp::Return(0)), vec![BackendOp::Return(0)]);
}

#[test]
fn cell_arithmetic_loads_computes_and_stores() {
    assert_eq!(
        expand(IrOp::AddToCell(3)),
        vec![
            BackendOp::LoadRegister,
            BackendOp::AddressCell,
            BackendOp::LoadCell,
            BackendOp::AddToValue(3),
            BackendOp::StoreCell,
        ]
    );
    assert_eq!(
        expand(IrOp::SubFromCell(200)),
        vec![
            BackendOp::LoadRegister,
            BackendOp::AddressCell,
            BackendOp::LoadCell,
            BackendOp::SubFromValue(200),
            BackendOp::StoreCell,
        ]
    );
}

#[test]
fn pointer_moves_load_step_and_store() {
    assert_eq!(
        expand(IrOp::MovePointerRight),
        vec![BackendOp::LoadRegister, BackendOp::IncrementIndex, BackendOp::StoreRegister]
    );
    assert_eq!(
        expand(IrOp::MovePointerLeft),
        vec![BackendOp::LoadRegister, BackendOp::DecrementIndex, BackendOp::StoreRegister]
    );
}

#[test]
fn loop_head_leaves_on_zero() {
    let body = Block::LoopBody(4);
    let exit = Block::LoopExit(4);
    assert_eq!(
        expand(IrOp::BranchIfZero { zero: exit, nonzero: body }),
        vec![
            BackendOp::LoadRegister,
            BackendOp::AddressCell,
            BackendOp::LoadCell,
            BackendOp::CompareZero,
            BackendOp::Branch { then_block: exit, else_block: body },
        ]
    );
}

#[test]
fn loop_foot_repeats_on_nonzero() {
    let body = Block::LoopBody(4);
    let exit = Block::LoopExit(4);
    assert_eq!(
        expand(IrOp::BranchIfNonZero { nonzero: body, zero: exit }),
        vec![
            BackendOp::LoadRegister,
            BackendOp::AddressCell,
            BackendOp::LoadCell,
            BackendOp::CompareNonZero,
            BackendOp::Branch { then_block: body, else_block: exit },
        ]
    );
}

#[test]
fn blocks_are_created_and_positioned_at() {
    assert_eq!(
        expand(IrOp::AppendBlock(Block::LoopBody(1))),
        vec![BackendOp::CreateBlock(Block::LoopBody(1))]
    );
    assert_eq!(
        expand(IrOp::PositionAt(Block::LoopExit(1))),
        vec![BackendOp::PositionAt(Block::LoopExit(1))]
    );
}

#[test]
fn output_loads_the_cell_and_input_stores_it() {
    assert_eq!(
        expand(IrOp::Output),
        vec![
            BackendOp::LoadRegister,
            BackendOp::AddressCell,
            BackendOp::LoadCell,
            BackendOp::CallOutput,
        ]
    );
    assert_eq!(
        expand(IrOp::Input),
        vec![
            BackendOp::LoadRegister,
            BackendOp::AddressCell,
            BackendOp::CallInput,
            BackendOp::StoreCell,
        ]
    );
}

#[test]
fn expand_appends_behind_what_is_there() {
    let mut out = vec![BackendOp::AllocateRegister];
    expand_into(IrOp::Return(9), &mut out);
    assert_eq!(out, vec![BackendOp::AllocateRegister, BackendOp::Return(9)]);
}

#[test]
fn lowering_spells_each_request_in_order() {
    let program = compile("+.").unwrap();
    assert_eq!(
        lower(&program),
        vec![
            BackendOp::AllocateRegion { cells: 30000 },
            BackendOp::AllocateRegister,
            BackendOp::LoadRegister,
            BackendOp::AddressCell,
            BackendOp::LoadCell,
            BackendOp::AddToValue(1),
            BackendOp::StoreCell,
            BackendOp::LoadRegister,
            BackendOp::AddressCell,
            BackendOp::LoadCell,
            BackendOp::CallOutput,
            BackendOp::Return(0),
        ]
    );
    assert_eq!(lower(&Vec::new()), Vec::<BackendOp>::new());
}

#[test]
fn comment_only_module_allocates_the_tape_and_returns() {
    let program = compile("a comment").unwrap();
    assert_eq!(
        lower(&program),
        vec![
            BackendOp::AllocateRegion { cells: 30000 },
            BackendOp::AllocateRegister,
            BackendOp::Return(0),
        ]
    );
}
