use bfc::builder::{build, Builder};
use bfc::compile::{compile, SourceError};
use bfc::grouper::{flatten, group, parse};
use bfc::ir::{Block, CompileError, IrOp, TAPE_CELLS};
use bfc::lexer::filter;
use bfc::operator::{is_operator_char, operator_of, Operator};

fn chars(s: &str) -> Vec<char> {
    s.chars().collect()
}

fn prologue() -> Vec<IrOp> {
    vec![IrOp::AllocTape { cells: 30000 }, IrOp::AllocPointer]
}

#[test]
fn tape_has_thirty_thousand_cells() {
    assert_eq!(TAPE_CELLS, 30000);
}

#[test]
fn operator_characters_are_the_eight() {
    for c in "+-<>[].,".chars() {
        assert!(is_operator_char(c));
    }
    for c in "a Z0\n\t#*/(){}=!~".chars() {
        assert!(!is_operator_char(c));
    }
    assert!(!is_operator_char('\u{00e9}'));
}

#[test]
fn operator_of_each_character() {
    assert_eq!(operator_of('+'), Some(Operator::IncrementBy(1)));
    assert_eq!(operator_of('-'), Some(Operator::DecrementBy(1)));
    assert_eq!(operator_of('>'), Some(Operator::MoveRight));
    assert_eq!(operator_of('<'), Some(Operator::MoveLeft));
    assert_eq!(operator_of('['), Some(Operator::LoopStart));
    assert_eq!(operator_of(']'), Some(Operator::LoopEnd));
    assert_eq!(operator_of('.'), Some(Operator::Output));
    assert_eq!(operator_of(','), Some(Operator::Input));
    assert_eq!(operator_of('x'), None);
}

#[test]
fn filter_keeps_operators_in_order() {
    assert_eq!(filter("a+b-c<d>e[f]g.h,i"), chars("+-<>[].,"));
    assert_eq!(filter("read , then . print"), chars(",."));
}

#[test]
fn filter_drops_everything_else() {
    assert_eq!(filter(""), Vec::<char>::new());
    assert_eq!(filter("hello world\n\u{00e9}\u{4e16}"), Vec::<char>::new());
}

#[test]
fn filter_of_operators_is_identity() {
    assert_eq!(filter("++[->+<]>."), chars("++[->+<]>."));
}

#[test]
fn group_counts_runs() {
    assert_eq!(group(&chars("+++.")), vec![Operator::IncrementBy(3), Operator::Output]);
    assert_eq!(group(&chars("----")), vec![Operator::DecrementBy(4)]);
    assert_eq!(group(&chars("")), Vec::<Operator>::new());
}

#[test]
fn group_does_not_merge_plus_with_minus() {
    assert_eq!(
        group(&chars("+++---")),
        vec![Operator::IncrementBy(3), Operator::DecrementBy(3)]
    );
    assert_eq!(
        group(&chars("+-+")),
        vec![Operator::IncrementBy(1), Operator::DecrementBy(1), Operator::IncrementBy(1)]
    );
}

#[test]
fn group_run_ends_at_any_other_operator() {
    assert_eq!(
        group(&chars("++>++")),
        vec![Operator::IncrementBy(2), Operator::MoveRight, Operator::IncrementBy(2)]
    );
    assert_eq!(
        group(&chars(">><<..,,[[]]")),
        vec![
            Operator::MoveRight,
            Operator::MoveRight,
            Operator::MoveLeft,
            Operator::MoveLeft,
            Operator::Output,
            Operator::Output,
            Operator::Input,
            Operator::Input,
            Operator::LoopStart,
            Operator::LoopStart,
            Operator::LoopEnd,
            Operator::LoopEnd,
        ]
    );
}

#[test]
fn group_count_is_not_reduced_to_cell_width() {
    let run: String = std::iter::repeat('+').take(300).collect();
    assert_eq!(parse(&run), vec![Operator::IncrementBy(300)]);
}

#[test]
fn parse_merges_runs_across_comments() {
    assert_eq!(parse("+ one + two +"), vec![Operator::IncrementBy(3)]);
    assert_eq!(parse("no operators here"), Vec::<Operator>::new());
}

#[test]
fn parse_input_then_output() {
    assert_eq!(parse(",."), vec![Operator::Input, Operator::Output]);
}

#[test]
fn flatten_spells_the_stream() {
    let ops = vec![
        Operator::IncrementBy(3),
        Operator::LoopStart,
        Operator::DecrementBy(2),
        Operator::MoveRight,
        Operator::MoveLeft,
        Operator::LoopEnd,
        Operator::Output,
        Operator::Input,
    ];
    assert_eq!(flatten(&ops), chars("+++[--><].,"));
    assert_eq!(flatten(&Vec::new()), Vec::<char>::new());
}

#[test]
fn flatten_undoes_group() {
    for text in ["", "+", "+++---", "++[->+<]>.", ",[.,]", "+-+-<<>>", "]]][[["] {
        assert_eq!(flatten(&group(&chars(text))), chars(text));
    }
}

#[test]
fn grouping_is_idempotent() {
    for text in ["", "+++---+++", "++[->+<]>.", ",.,.", "-[--[---]----]"] {
        let once = group(&chars(text));
        let again = group(&flatten(&once));
        assert_eq!(again, once);
    }
}

#[test]
fn comment_only_source_allocates_and_returns() {
    let program = compile("nothing to see here\n").unwrap();
    assert_eq!(
        program,
        vec![IrOp::AllocTape { cells: 30000 }, IrOp::AllocPointer, IrOp::Return(0)]
    );
    assert_eq!(compile("").unwrap(), program);
}

#[test]
fn increment_then_output() {
    let mut expected = prologue();
    expected.extend([IrOp::AddToCell(3), IrOp::Output, IrOp::Return(0)]);
    assert_eq!(compile("+++.").unwrap(), expected);
}

#[test]
fn input_then_output() {
    let mut expected = prologue();
    expected.extend([IrOp::Input, IrOp::Output, IrOp::Return(0)]);
    assert_eq!(compile(",.").unwrap(), expected);
}

#[test]
fn pointer_moves() {
    let mut expected = prologue();
    expected.extend([
        IrOp::MovePointerRight,
        IrOp::MovePointerRight,
        IrOp::MovePointerLeft,
        IrOp::Return(0),
    ]);
    assert_eq!(compile(">><").unwrap(), expected);
}

#[test]
fn clear_loop_has_two_blocks_and_two_branches() {
    let body = Block::LoopBody(0);
    let exit = Block::LoopExit(0);
    let mut expected = prologue();
    expected.extend([
        IrOp::AppendBlock(body),
        IrOp::AppendBlock(exit),
        IrOp::BranchIfZero { zero: exit, nonzero: body },
        IrOp::PositionAt(body),
        IrOp::SubFromCell(1),
        IrOp::BranchIfNonZero { nonzero: body, zero: exit },
        IrOp::PositionAt(exit),
        IrOp::Return(0),
    ]);
    assert_eq!(compile("[-]").unwrap(), expected);
}

#[test]
fn nested_loops_close_innermost_first() {
    let program = compile("[[]][]").unwrap();
    let mut expected = prologue();
    expected.extend([
        IrOp::AppendBlock(Block::LoopBody(0)),
        IrOp::AppendBlock(Block::LoopExit(0)),
        IrOp::BranchIfZero { zero: Block::LoopExit(0), nonzero: Block::LoopBody(0) },
        IrOp::PositionAt(Block::LoopBody(0)),
        IrOp::AppendBlock(Block::LoopBody(1)),
        IrOp::AppendBlock(Block::LoopExit(1)),
        IrOp::BranchIfZero { zero: Block::LoopExit(1), nonzero: Block::LoopBody(1) },
        IrOp::PositionAt(Block::LoopBody(1)),
        IrOp::BranchIfNonZero { nonzero: Block::LoopBody(1), zero: Block::LoopExit(1) },
        IrOp::PositionAt(Block::LoopExit(1)),
        IrOp::BranchIfNonZero { nonzero: Block::LoopBody(0), zero: Block::LoopExit(0) },
        IrOp::PositionAt(Block::LoopExit(0)),
        IrOp::AppendBlock(Block::LoopBody(2)),
        IrOp::AppendBlock(Block::LoopExit(2)),
        IrOp::BranchIfZero { zero: Block::LoopExit(2), nonzero: Block::LoopBody(2) },
        IrOp::PositionAt(Block::LoopBody(2)),
        IrOp::BranchIfNonZero { nonzero: Block::LoopBody(2), zero: Block::LoopExit(2) },
        IrOp::PositionAt(Block::LoopExit(2)),
        IrOp::Return(0),
    ]);
    assert_eq!(program, expected);
}

#[test]
fn amounts_wrap_at_the_cell_width() {
    let mut expected = prologue();
    expected.extend([IrOp::AddToCell(0), IrOp::Return(0)]);
    assert_eq!(build(&vec![Operator::IncrementBy(256)]).unwrap(), expected);

    let mut expected = prologue();
    expected.extend([IrOp::SubFromCell(44), IrOp::Return(0)]);
    assert_eq!(build(&vec![Operator::DecrementBy(300)]).unwrap(), expected);

    let mut expected = prologue();
    expected.extend([IrOp::AddToCell(255), IrOp::Return(0)]);
    assert_eq!(build(&vec![Operator::IncrementBy(u64::MAX)]).unwrap(), expected);
}

#[test]
fn lone_close_bracket_fails() {
    assert_eq!(
        compile("]"),
        Err(SourceError { kind: CompileError::UnmatchedCloseBracket { index: 0 }, position: 0 })
    );
    assert_eq!(build(&vec![Operator::LoopEnd]), Err(CompileError::UnmatchedCloseBracket { index: 0 }));
}

#[test]
fn lone_open_bracket_fails() {
    assert_eq!(
        compile("["),
        Err(SourceError { kind: CompileError::UnmatchedOpenBracket { index: 0 }, position: 0 })
    );
    assert_eq!(build(&vec![Operator::LoopStart]), Err(CompileError::UnmatchedOpenBracket { index: 0 }));
}

#[test]
fn first_unmatched_close_is_reported() {
    assert_eq!(
        compile("+[-]>]<]"),
        Err(SourceError { kind: CompileError::UnmatchedCloseBracket { index: 5 }, position: 5 })
    );
    assert_eq!(
        compile("]["),
        Err(SourceError { kind: CompileError::UnmatchedCloseBracket { index: 0 }, position: 0 })
    );
}

#[test]
fn innermost_open_loop_is_reported() {
    assert_eq!(
        compile("[[]"),
        Err(SourceError { kind: CompileError::UnmatchedOpenBracket { index: 0 }, position: 0 })
    );
    assert_eq!(
        compile("[]["),
        Err(SourceError { kind: CompileError::UnmatchedOpenBracket { index: 2 }, position: 2 })
    );
    assert_eq!(
        compile("+[>[-"),
        Err(SourceError { kind: CompileError::UnmatchedOpenBracket { index: 3 }, position: 3 })
    );
}

#[test]
fn error_names_the_instruction_and_the_character() {
    assert_eq!(
        compile("+++ comment ]"),
        Err(SourceError { kind: CompileError::UnmatchedCloseBracket { index: 1 }, position: 12 })
    );
    assert_eq!(
        compile("++ [ - ] oops ] ."),
        Err(SourceError { kind: CompileError::UnmatchedCloseBracket { index: 4 }, position: 14 })
    );
    assert_eq!(
        compile("say [ and [ then ]"),
        Err(SourceError { kind: CompileError::UnmatchedOpenBracket { index: 0 }, position: 4 })
    );
    assert_eq!(
        compile("\u{00e9}\u{4e16}["),
        Err(SourceError { kind: CompileError::UnmatchedOpenBracket { index: 0 }, position: 2 })
    );
}

#[test]
fn build_reports_no_backend_failure() {
    for text in ["", "]", "[", "[]", "+[-]>]<]", "[[]", "+-.,<>"] {
        let outcome = build(&parse(text));
        assert_ne!(outcome, Err(CompileError::BackendEmissionFailure));
    }
}

#[test]
fn builder_starts_in_the_entry_block() {
    let builder = Builder::new();
    assert_eq!(builder.cursor(), Block::Entry);
    assert_eq!(builder.depth(), 0);
    assert_eq!(
        builder.finish().unwrap(),
        vec![IrOp::AllocTape { cells: 30000 }, IrOp::AllocPointer, IrOp::Return(0)]
    );
}

#[test]
fn stack_depth_follows_the_nesting() {
    let ops = parse("+[>[-]<[.]]+");
    let depths = [0, 1, 1, 2, 2, 1, 1, 2, 2, 1, 0, 0];
    let mut builder = Builder::new();
    assert_eq!(builder.depth(), 0);
    for (op, depth) in ops.iter().zip(depths) {
        assert_eq!(builder.step(*op), Ok(()));
        assert_eq!(builder.depth(), depth);
    }
    assert_eq!(ops.len(), depths.len());
    assert!(builder.finish().is_ok());
}

#[test]
fn cursor_moves_into_the_body_and_out_to_the_exit() {
    let mut builder = Builder::new();
    assert_eq!(builder.step(Operator::LoopStart), Ok(()));
    assert_eq!(builder.cursor(), Block::LoopBody(0));
    assert_eq!(builder.step(Operator::LoopStart), Ok(()));
    assert_eq!(builder.cursor(), Block::LoopBody(1));
    assert_eq!(builder.step(Operator::LoopEnd), Ok(()));
    assert_eq!(builder.cursor(), Block::LoopExit(1));
    assert_eq!(builder.step(Operator::LoopEnd), Ok(()));
    assert_eq!(builder.cursor(), Block::LoopExit(0));
}

#[test]
fn failed_step_leaves_the_builder_as_it_was() {
    let mut builder = Builder::new();
    assert_eq!(builder.step(Operator::IncrementBy(2)), Ok(()));
    assert_eq!(
        builder.step(Operator::LoopEnd),
        Err(CompileError::UnmatchedCloseBracket { index: 1 })
    );
    assert_eq!(builder.depth(), 0);
    assert_eq!(builder.cursor(), Block::Entry);
    let mut expected = prologue();
    expected.extend([IrOp::AddToCell(2), IrOp::Return(0)]);
    assert_eq!(builder.finish().unwrap(), expected);
}
