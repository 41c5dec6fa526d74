use bfc::compile::compile;
use bfc::ir::{Block, IrOp};
use bfc::machine::{find_block, run, Halt, Machine, END_OF_INPUT};

const FUEL: u64 = 1_000_000;

fn program(source: &str) -> Vec<IrOp> {
    compile(source).unwrap()
}

#[test]
fn fresh_machine_has_no_tape() {
    let machine = Machine::new();
    assert!(machine.cells.is_empty());
    assert!(machine.output.is_empty());
    assert_eq!(machine.pointer, 0);
    assert_eq!(machine.consumed, 0);
    assert_eq!(machine.pc, 0);
}

#[test]
fn empty_program_allocates_a_zeroed_tape_and_returns() {
    let outcome = run(&program(""), &vec![], FUEL);
    assert_eq!(outcome.halt, Halt::Returned(0));
    assert_eq!(outcome.steps, 2);
    assert_eq!(outcome.machine.cells.len(), 30000);
    assert!(outcome.machine.cells.iter().all(|cell| *cell == 0));
    assert_eq!(outcome.machine.pointer, 0);
    assert!(outcome.machine.output.is_empty());
}

#[test]
fn three_up_three_down_nets_to_zero() {
    let outcome = run(&program("+++---"), &vec![], FUEL);
    assert_eq!(outcome.halt, Halt::Returned(0));
    assert_eq!(outcome.machine.cells[0], 0);
    assert!(outcome.machine.cells.iter().all(|cell| *cell == 0));
}

#[test]
fn long_runs_net_to_zero_across_the_wraparound() {
    let mut source = String::new();
    for _ in 0..700 {
        source.push('+');
    }
    for _ in 0..700 {
        source.push('-');
    }
    let outcome = run(&program(&source), &vec![], FUEL);
    assert_eq!(outcome.halt, Halt::Returned(0));
    assert_eq!(outcome.machine.cells[0], 0);
}

#[test]
fn three_up_then_output_writes_three() {
    let outcome = run(&program("+++."), &vec![], FUEL);
    assert_eq!(outcome.halt, Halt::Returned(0));
    assert_eq!(outcome.machine.output, vec![3]);
    assert_eq!(outcome.machine.cells[0], 3);
}

#[test]
fn clear_loop_on_five_runs_five_times() {
    let outcome = run(&program("+++++[-]"), &vec![], FUEL);
    assert_eq!(outcome.halt, Halt::Returned(0));
    assert_eq!(outcome.machine.cells[0], 0);
    // prologue 2, the add 1, two blocks and the entry branch 3, then a
    // subtraction and a branch for each of five turns
    assert_eq!(outcome.steps, 2 + 1 + 3 + 2 * 5);
}

#[test]
fn clear_loop_turns_as_often_as_the_cell_says() {
    for start in 0u64..20 {
        let mut source = String::new();
        for _ in 0..start {
            source.push('+');
        }
        source.push_str("[-]");
        let outcome = run(&program(&source), &vec![], FUEL);
        assert_eq!(outcome.halt, Halt::Returned(0));
        assert_eq!(outcome.machine.cells[0], 0);
        let add = if start == 0 { 0 } else { 1 };
        assert_eq!(outcome.steps, 2 + add + 3 + 2 * start);
    }
}

#[test]
fn loop_on_a_zero_cell_is_skipped() {
    let outcome = run(&program("[+.]"), &vec![], FUEL);
    assert_eq!(outcome.halt, Halt::Returned(0));
    assert!(outcome.machine.output.is_empty());
    assert_eq!(outcome.machine.cells[0], 0);
}

#[test]
fn input_is_written_back_unchanged() {
    let echo = program(",.");
    for byte in 0u8..=255 {
        let outcome = run(&echo, &vec![byte], FUEL);
        assert_eq!(outcome.halt, Halt::Returned(0));
        assert_eq!(outcome.machine.output, vec![byte]);
        assert_eq!(outcome.machine.consumed, 1);
    }
}

#[test]
fn input_bytes_are_read_in_order() {
    let outcome = run(&program(",>,>,<<.>.>."), &vec![7, 8, 9, 10], FUEL);
    assert_eq!(outcome.machine.output, vec![7, 8, 9]);
    assert_eq!(outcome.machine.consumed, 3);
    assert_eq!(outcome.machine.pointer, 2);
}

#[test]
fn input_at_the_end_reads_the_end_marker() {
    assert_eq!(END_OF_INPUT, 255);
    let outcome = run(&program(",."), &vec![], FUEL);
    assert_eq!(outcome.halt, Halt::Returned(0));
    assert_eq!(outcome.machine.output, vec![255]);
    assert_eq!(outcome.machine.consumed, 0);
}

#[test]
fn cells_wrap_around_in_eight_bits() {
    let outcome = run(&program("-."), &vec![], FUEL);
    assert_eq!(outcome.machine.output, vec![255]);
    let outcome = run(&program("-++."), &vec![], FUEL);
    assert_eq!(outcome.machine.output, vec![1]);
}

#[test]
fn multiplication_loop_prints_a_letter() {
    let outcome = run(&program("++++++++[>++++++++<-]>+."), &vec![], FUEL);
    assert_eq!(outcome.halt, Halt::Returned(0));
    assert_eq!(outcome.machine.output, vec![65]);
    assert_eq!(outcome.machine.pointer, 1);
    assert_eq!(outcome.machine.cells[0], 0);
    assert_eq!(outcome.machine.cells[1], 65);
}

#[test]
fn nested_loops_run_inside_out() {
    let outcome = run(&program("++[>++[>+++<-]<-]>>."), &vec![], FUEL);
    assert_eq!(outcome.halt, Halt::Returned(0));
    assert_eq!(outcome.machine.output, vec![12]);
}

#[test]
fn cell_access_left_of_the_tape_halts() {
    let outcome = run(&program("<+"), &vec![], FUEL);
    assert_eq!(outcome.halt, Halt::PointerOutsideTape);
    assert_eq!(outcome.machine.pointer, -1);
    assert_eq!(outcome.steps, 3);
}

#[test]
fn cell_access_right_of_the_tape_halts() {
    let mut source = String::new();
    for _ in 0..29999 {
        source.push('>');
    }
    source.push('+');
    let outcome = run(&program(&source), &vec![], FUEL);
    assert_eq!(outcome.halt, Halt::Returned(0));
    assert_eq!(outcome.machine.cells[29999], 1);

    source.push_str(">.");
    let outcome = run(&program(&source), &vec![], FUEL);
    assert_eq!(outcome.halt, Halt::PointerOutsideTape);
    assert_eq!(outcome.machine.pointer, 30000);
}

#[test]
fn endless_loop_runs_out_of_fuel() {
    let outcome = run(&program("+[]"), &vec![], 100);
    assert_eq!(outcome.halt, Halt::OutOfFuel);
    assert_eq!(outcome.steps, 100);
    assert_eq!(outcome.machine.cells[0], 1);
}

#[test]
fn no_fuel_runs_nothing() {
    let outcome = run(&program("+"), &vec![], 0);
    assert_eq!(outcome.halt, Halt::OutOfFuel);
    assert_eq!(outcome.steps, 0);
    assert!(outcome.machine.cells.is_empty());
}

#[test]
fn program_without_return_is_malformed() {
    let outcome = run(&vec![], &vec![], FUEL);
    assert_eq!(outcome.halt, Halt::Malformed);
    let outcome = run(&vec![IrOp::AllocTape { cells: 4 }, IrOp::AllocPointer], &vec![], FUEL);
    assert_eq!(outcome.halt, Halt::Malformed);
    assert_eq!(outcome.steps, 2);
    assert_eq!(outcome.machine.cells, vec![0, 0, 0, 0]);
}

#[test]
fn branch_to_a_missing_block_is_malformed() {
    let ir = vec![
        IrOp::AllocTape { cells: 1 },
        IrOp::AllocPointer,
        IrOp::BranchIfZero { zero: Block::LoopExit(0), nonzero: Block::LoopBody(0) },
        IrOp::PositionAt(Block::LoopBody(0)),
        IrOp::Return(1),
    ];
    let outcome = run(&ir, &vec![], FUEL);
    assert_eq!(outcome.halt, Halt::Malformed);
    assert_eq!(outcome.machine.pc, 2);
}

#[test]
fn falling_into_a_block_start_is_malformed() {
    let ir = vec![IrOp::AllocPointer, IrOp::PositionAt(Block::LoopBody(0)), IrOp::Return(1)];
    let outcome = run(&ir, &vec![], FUEL);
    assert_eq!(outcome.halt, Halt::Malformed);
    assert_eq!(outcome.steps, 1);
}

#[test]
fn return_value_is_handed_out() {
    let outcome = run(&vec![IrOp::Return(42)], &vec![], FUEL);
    assert_eq!(outcome.halt, Halt::Returned(42));
    assert_eq!(outcome.steps, 0);
}

#[test]
fn find_block_gives_the_first_position() {
    let ir = program("[[]]");
    assert_eq!(find_block(&ir, Block::LoopBody(0)), Some(5));
    assert_eq!(find_block(&ir, Block::LoopBody(1)), Some(9));
    assert_eq!(find_block(&ir, Block::LoopExit(1)), Some(11));
    assert_eq!(find_block(&ir, Block::LoopExit(0)), Some(13));
    assert_eq!(find_block(&ir, Block::Entry), None);
    assert_eq!(find_block(&ir, Block::LoopBody(2)), None);
}

#[test]
fn single_steps_follow_the_program() {
    let ir = program("+.");
    let input = vec![];
    let mut machine = Machine::new();
    assert_eq!(machine.step(&ir, &input), None);
    assert_eq!(machine.cells.len(), 30000);
    assert_eq!(machine.step(&ir, &input), None);
    assert_eq!(machine.step(&ir, &input), None);
    assert_eq!(machine.cells[0], 1);
    assert_eq!(machine.step(&ir, &input), None);
    assert_eq!(machine.output, vec![1]);
    assert_eq!(machine.pc, 4);
    assert_eq!(machine.step(&ir, &input), Some(Halt::Returned(0)));
    assert_eq!(machine.pc, 4);
}

#[test]
fn compiled_programs_never_halt_for_their_shape() {
    let sources = ["", "+", "[]", "+[]", "[[[]]]", "+[>+[>+<-]<-]", ",[.,]", "<<<", "[-]>[-]<[->+<]"];
    for source in sources {
        let ir = program(source);
        for fuel in [0u64, 1, 2, 5, 17, 300] {
            let outcome = run(&ir, &vec![1, 2, 3], fuel);
            assert_ne!(outcome.halt, Halt::Malformed);
            assert!(outcome.steps <= fuel);
        }
    }
}

#[test]
fn blocks_are_created_before_they_are_named() {
    for source in ["[]", "[[[]]]", "+[>+[>+<-]<-]", ",[.,]", "[-]>[-]<[->+<]"] {
        let ir = program(source);
        let mut created: Vec<Block> = Vec::new();
        for op in ir.iter() {
            match *op {
                IrOp::AppendBlock(block) => {
                    assert!(!created.contains(&block));
                    created.push(block);
                }
                IrOp::PositionAt(block) => assert!(created.contains(&block)),
                IrOp::BranchIfZero { zero, nonzero } => {
                    assert!(created.contains(&zero) && created.contains(&nonzero));
                }
                IrOp::BranchIfNonZero { nonzero, zero } => {
                    assert!(created.contains(&zero) && created.contains(&nonzero));
                }
                _ => {}
            }
        }
        assert_eq!(ir.last(), Some(&IrOp::Return(0)));
    }
}
