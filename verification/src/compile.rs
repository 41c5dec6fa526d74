use vstd::prelude::*;
use crate::operator::{Operator, is_operator};
use crate::ir::{IrOp, CompileError, TAPE_CELLS};
use crate::grouper::{parse, parse_spec, lemma_comment_only};
use crate::builder::{build, build_spec};
use crate::nesting::{balanced, lemma_build_outcome};
use crate::control::{blocks_created_first, well_formed};
use crate::position::{position_of, starts_instruction, lemma_position_shows_instruction};

verus! {

/// The program for a source text, or why there is none.
pub open spec fn compile_spec(source: Seq<char>) -> Result<Seq<IrOp>, CompileError> {
    build_spec(parse_spec(source))
}

/// A failed compilation: what went wrong, and the position in the source
/// text, counted in characters, of the bracket that it is about.
#[derive(Clone, Copy, Debug, PartialEq, Eq, Structural)]
pub struct SourceError {
    pub kind: CompileError,
    pub position: usize,
}

/// Whether `position` is where the failure shows in the text: there stands
/// the bracket of the failure's kind that begins the instruction it names.
pub open spec fn located(source: Seq<char>, kind: CompileError, position: int) -> bool {
    match kind {
        CompileError::UnmatchedOpenBracket { index } => {
            &&& starts_instruction(source, index as int, position)
            &&& source[position] == '['
        },
        CompileError::UnmatchedCloseBracket { index } => {
            &&& starts_instruction(source, index as int, position)
            &&& source[position] == ']'
        },
        CompileError::BackendEmissionFailure => false,
    }
}

/// Compiles a source text: drops its comments, groups its runs, and plans
/// the program for the code generator. A text whose brackets do not match
/// gives no program, but the bracket at fault and its place in the text.
pub fn compile(source: &str) -> (r: Result<Vec<IrOp>, SourceError>)
    ensures
        match r {
            Ok(v) => compile_spec(source@) == Ok::<Seq<IrOp>, CompileError>(v@) && well_formed(v@)
                && blocks_created_first(v@),
            Err(e) => compile_spec(source@) == Err::<Seq<IrOp>, CompileError>(e.kind) && located(
                source@,
                e.kind,
                e.position as int,
            ),
        },
        r is Ok <==> balanced(parse_spec(source@)),
{
    let ops = parse(source);
    match build(&ops) {
        Ok(program) => Ok(program),
        Err(kind) => {
            proof {
                lemma_build_outcome(ops@);
            }
            let index: usize = match kind {
                CompileError::UnmatchedOpenBracket { index } => index,
                CompileError::UnmatchedCloseBracket { index } => index,
                CompileError::BackendEmissionFailure => 0,
            };
            let position: usize = match position_of(source, index) {
                Some(p) => p,
                None => 0,
            };
            proof {
                lemma_position_shows_instruction(source@, index as int, position as int);
            }
            Err(SourceError { kind, position })
        },
    }
}

/// A text without any operator character compiles to the program that
/// allocates the tape and returns.
pub proof fn lemma_comment_only_program(source: Seq<char>)
    requires
        forall|i: int| 0 <= i < source.len() ==> !is_operator(#[trigger] source[i]),
    ensures
        parse_spec(source) == Seq::<Operator>::empty(),
        compile_spec(source) == Ok::<Seq<IrOp>, CompileError>(
            seq![IrOp::AllocTape { cells: TAPE_CELLS }, IrOp::AllocPointer, IrOp::Return(0)],
        ),
{
    lemma_comment_only(source);
    assert(build_spec(Seq::<Operator>::empty())->Ok_0 =~= seq![
        IrOp::AllocTape { cells: TAPE_CELLS },
        IrOp::AllocPointer,
        IrOp::Return(0),
    ]);
}

} // verus!
