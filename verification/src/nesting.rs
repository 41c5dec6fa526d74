use vstd::prelude::*;
use crate::operator::Operator;
use crate::ir::CompileError;
use crate::builder::{LoopMarker, run_spec, build_spec, step_spec, counters_ok};

verus! {

/// What one instruction adds to the nesting depth.
pub open spec fn depth_change(op: Operator) -> int {
    match op {
        Operator::LoopStart => 1,
        Operator::LoopEnd => -1,
        _ => 0,
    }
}

/// The bracket nesting depth after `ops`: loops opened minus loops closed.
pub open spec fn nesting_depth(ops: Seq<Operator>) -> int
    decreases ops.len(),
{
    if ops.len() == 0 {
        0
    } else {
        nesting_depth(ops.drop_last()) + depth_change(ops.last())
    }
}

/// Whether no `LoopEnd` of `ops` comes without a loop to close.
pub open spec fn never_negative(ops: Seq<Operator>) -> bool {
    forall|k: int| 0 <= k <= ops.len() ==> nesting_depth(#[trigger] ops.take(k)) >= 0
}

/// Whether the brackets of `ops` are balanced.
pub open spec fn balanced(ops: Seq<Operator>) -> bool {
    never_negative(ops) && nesting_depth(ops) == 0
}

/// Whether the `LoopEnd` at `i` is the first of `ops` that closes no loop.
pub open spec fn first_unmatched_close(ops: Seq<Operator>, i: int) -> bool {
    &&& 0 <= i < ops.len()
    &&& ops[i] == Operator::LoopEnd
    &&& never_negative(ops.take(i))
    &&& nesting_depth(ops.take(i)) == 0
}

/// Whether every marker of the stack names a `LoopStart` of `ops`.
pub open spec fn markers_point_at_loops(stack: Seq<LoopMarker>, ops: Seq<Operator>) -> bool {
    forall|j: int|
        0 <= j < stack.len() ==> 0 <= (#[trigger] stack[j]).opened_at < ops.len()
            && ops[stack[j].opened_at as int] == Operator::LoopStart
}

/// The depth of a concatenation is the sum of the depths.
pub proof fn lemma_depth_concat(a: Seq<Operator>, b: Seq<Operator>)
    ensures
        nesting_depth(a + b) == nesting_depth(a) + nesting_depth(b),
    decreases b.len(),
{
    if b.len() == 0 {
        assert(a + b =~= a);
    } else {
        lemma_depth_concat(a, b.drop_last());
        assert((a + b).drop_last() =~= a + b.drop_last());
    }
}

/// A stream without `LoopStart` has no positive depth; one without
/// `LoopEnd` has no negative depth.
pub proof fn lemma_depth_sign(ops: Seq<Operator>)
    ensures
        (forall|i: int| 0 <= i < ops.len() ==> ops[i] != Operator::LoopStart) ==> nesting_depth(ops)
            <= 0,
        (forall|i: int| 0 <= i < ops.len() ==> ops[i] != Operator::LoopEnd) ==> nesting_depth(ops)
            >= 0,
    decreases ops.len(),
{
    if ops.len() > 0 {
        let t = ops.drop_last();
        lemma_depth_sign(t);
        if forall|i: int| 0 <= i < ops.len() ==> ops[i] != Operator::LoopStart {
            assert forall|i: int| 0 <= i < t.len() implies t[i] != Operator::LoopStart by {
                assert(t[i] == ops[i]);
            }
            assert(ops[ops.len() - 1] != Operator::LoopStart);
        }
        if forall|i: int| 0 <= i < ops.len() ==> ops[i] != Operator::LoopEnd {
            assert forall|i: int| 0 <= i < t.len() implies t[i] != Operator::LoopEnd by {
                assert(t[i] == ops[i]);
            }
            assert(ops[ops.len() - 1] != Operator::LoopEnd);
        }
    }
}

/// A stream never goes negative exactly if its front does not and its whole
/// depth is not negative.
pub proof fn lemma_never_negative_step(ops: Seq<Operator>)
    requires
        ops.len() > 0,
    ensures
        never_negative(ops) <==> never_negative(ops.drop_last()) && nesting_depth(ops) >= 0,
{
    let t = ops.drop_last();
    if never_negative(ops) {
        assert forall|k: int| 0 <= k <= t.len() implies nesting_depth(#[trigger] t.take(k))
            >= 0 by {
            assert(t.take(k) =~= ops.take(k));
        }
        assert(ops.take(ops.len() as int) =~= ops);
    }
    if never_negative(t) && nesting_depth(ops) >= 0 {
        assert forall|k: int| 0 <= k <= ops.len() implies nesting_depth(#[trigger] ops.take(k))
            >= 0 by {
            if k < ops.len() {
                assert(t.take(k) =~= ops.take(k));
            } else {
                assert(ops.take(k) =~= ops);
            }
        }
    }
}

/// The depth of the stack of loop markers is the nesting depth: on every stream
/// the builder gets through, the stack holds one marker for each loop that
/// is open, each naming the `LoopStart` that opened it; and the builder
/// fails exactly at the first `LoopEnd` that closes no loop.
pub proof fn lemma_stack_depth(ops: Seq<Operator>)
    requires
        ops.len() <= usize::MAX,
    ensures
        match run_spec(ops) {
            Ok(m) => {
                &&& never_negative(ops)
                &&& m.stack.len() == nesting_depth(ops)
                &&& m.consumed == ops.len()
                &&& counters_ok(m)
                &&& markers_point_at_loops(m.stack, ops)
            },
            Err(e) => {
                &&& !never_negative(ops)
                &&& e matches CompileError::UnmatchedCloseBracket { index }
                &&& first_unmatched_close(ops, index as int)
            },
        },
    decreases ops.len(),
{
    if ops.len() == 0 {
        assert forall|k: int| 0 <= k <= ops.len() implies nesting_depth(#[trigger] ops.take(k))
            >= 0 by {
            assert(ops.take(k) =~= ops);
        }
    } else {
        let t = ops.drop_last();
        lemma_stack_depth(t);
        lemma_never_negative_step(ops);
        match run_spec(t) {
            Ok(m) => {
                assert(t =~= ops.take(t.len() as int));
                match step_spec(m, ops.last()) {
                    Ok(m2) => {
                        assert forall|j: int| 0 <= j < m2.stack.len() implies 0 <= (
                        #[trigger] m2.stack[j]).opened_at < ops.len()
                            && ops[m2.stack[j].opened_at as int] == Operator::LoopStart by {
                            if j < m.stack.len() {
                                assert(m2.stack[j] == m.stack[j]);
                                assert(t[m.stack[j].opened_at as int] == ops[m.stack[j].opened_at as int]);
                            }
                        }
                    },
                    Err(e) => {},
                }
            },
            Err(e) => {
                let index = e->UnmatchedCloseBracket_index as int;
                assert(ops.take(index) =~= t.take(index));
                assert(t[index] == ops[index]);
            },
        }
    }
}

/// A stream compiles exactly if its brackets are balanced. Otherwise the
/// failure names the first `LoopEnd` that closes no loop, or, where there is
/// none, a `LoopStart` that is never closed.
pub proof fn lemma_build_outcome(ops: Seq<Operator>)
    requires
        ops.len() <= usize::MAX,
    ensures
        build_spec(ops) is Ok <==> balanced(ops),
        match build_spec(ops) {
            Ok(ir) => true,
            Err(CompileError::UnmatchedCloseBracket { index }) => first_unmatched_close(
                ops,
                index as int,
            ),
            Err(CompileError::UnmatchedOpenBracket { index }) => {
                &&& never_negative(ops)
                &&& nesting_depth(ops) > 0
                &&& 0 <= index < ops.len()
                &&& ops[index as int] == Operator::LoopStart
            },
            Err(CompileError::BackendEmissionFailure) => false,
        },
{
    lemma_stack_depth(ops);
    match run_spec(ops) {
        Ok(m) => {
            if m.stack.len() > 0 {
                assert(m.stack[m.stack.len() - 1].opened_at < ops.len());
            }
        },
        Err(e) => {},
    }
}

/// In a balanced stream no loop is open before the first `LoopStart`: after
/// any front of the stream that holds no `LoopStart`, the stack is empty.
pub proof fn lemma_stack_empty_before_first_loop(ops: Seq<Operator>, k: int)
    requires
        ops.len() <= usize::MAX,
        balanced(ops),
        0 <= k <= ops.len(),
        forall|i: int| 0 <= i < k ==> ops[i] != Operator::LoopStart,
    ensures
        run_spec(ops.take(k)) is Ok,
        run_spec(ops.take(k))->Ok_0.stack.len() == 0,
{
    let front = ops.take(k);
    lemma_prefix_runs(ops, k);
    lemma_depth_sign(front);
    assert(nesting_depth(front) >= 0);
}

/// In a balanced stream no loop is open after the last `LoopEnd`: after any
/// front of the stream behind which no `LoopEnd` follows, the stack is empty.
pub proof fn lemma_stack_empty_after_last_loop(ops: Seq<Operator>, k: int)
    requires
        ops.len() <= usize::MAX,
        balanced(ops),
        0 <= k <= ops.len(),
        forall|i: int| k <= i < ops.len() ==> ops[i] != Operator::LoopEnd,
    ensures
        run_spec(ops.take(k)) is Ok,
        run_spec(ops.take(k))->Ok_0.stack.len() == 0,
{
    let front = ops.take(k);
    let rest = ops.skip(k);
    lemma_prefix_runs(ops, k);
    lemma_depth_sign(rest);
    lemma_depth_concat(front, rest);
    assert(front + rest =~= ops);
    assert(nesting_depth(front) >= 0);
}

/// The builder gets through every front of a stream that never goes
/// negative, with as many markers on the stack as loops are open there.
pub proof fn lemma_prefix_runs(ops: Seq<Operator>, k: int)
    requires
        ops.len() <= usize::MAX,
        never_negative(ops),
        0 <= k <= ops.len(),
    ensures
        run_spec(ops.take(k)) is Ok,
        run_spec(ops.take(k))->Ok_0.stack.len() == nesting_depth(ops.take(k)),
{
    let front = ops.take(k);
    assert forall|j: int| 0 <= j <= front.len() implies nesting_depth(#[trigger] front.take(j))
        >= 0 by {
        assert(front.take(j) =~= ops.take(j));
    }
    lemma_stack_depth(front);
}

/// Whether the `LoopStart` at `open` and the `LoopEnd` at `close` are a
/// pair: the loop is open all the way between them, and closed right after.
pub open spec fn matching(ops: Seq<Operator>, open: int, close: int) -> bool {
    &&& 0 <= open < close < ops.len()
    &&& ops[open] == Operator::LoopStart
    &&& ops[close] == Operator::LoopEnd
    &&& nesting_depth(ops.take(close + 1)) == nesting_depth(ops.take(open))
    &&& forall|k: int|
        open < k <= close ==> nesting_depth(#[trigger] ops.take(k)) > nesting_depth(ops.take(open))
}

/// Whether the marker at each height of the stack names the `LoopStart`
/// that raised the nesting to that height for good: the depth before it is
/// the marker's height, and the depth stays above it from there on.
pub open spec fn markers_enclose(stack: Seq<LoopMarker>, ops: Seq<Operator>) -> bool {
    forall|p: int|
        0 <= p < stack.len() ==> {
            let j = (#[trigger] stack[p]).opened_at as int;
            &&& 0 <= j < ops.len()
            &&& ops[j] == Operator::LoopStart
            &&& nesting_depth(ops.take(j)) == p
            &&& forall|k: int| j < k <= ops.len() ==> nesting_depth(#[trigger] ops.take(k)) > p
        }
}

/// On every stream the builder gets through, each marker on the stack
/// names the `LoopStart` of the loop that is open at its height.
pub proof fn lemma_markers_enclose(ops: Seq<Operator>)
    requires
        ops.len() <= usize::MAX,
        run_spec(ops) is Ok,
    ensures
        markers_enclose(run_spec(ops)->Ok_0.stack, ops),
    decreases ops.len(),
{
    if ops.len() > 0 {
        let t = ops.drop_last();
        let m = run_spec(t)->Ok_0;
        let m2 = run_spec(ops)->Ok_0;
        lemma_markers_enclose(t);
        lemma_stack_depth(t);
        lemma_stack_depth(ops);
        assert forall|p: int| 0 <= p < m2.stack.len() implies ({
            let j = (#[trigger] m2.stack[p]).opened_at as int;
            &&& 0 <= j < ops.len()
            &&& ops[j] == Operator::LoopStart
            &&& nesting_depth(ops.take(j)) == p
            &&& forall|k: int| j < k <= ops.len() ==> nesting_depth(#[trigger] ops.take(k)) > p
        }) by {
            let j = m2.stack[p].opened_at as int;
            if p < m.stack.len() {
                assert(m2.stack[p] == m.stack[p]);
                assert(ops[j] == t[j]);
                assert(ops.take(j) =~= t.take(j));
                assert forall|k: int| j < k <= ops.len() implies nesting_depth(
                    #[trigger] ops.take(k),
                ) > p by {
                    if k < ops.len() {
                        assert(ops.take(k) =~= t.take(k));
                    } else {
                        assert(ops.take(k) =~= ops);
                    }
                }
            } else {
                assert(ops.take(j) =~= t);
                assert forall|k: int| j < k <= ops.len() implies nesting_depth(
                    #[trigger] ops.take(k),
                ) > p by {
                    assert(ops.take(k) =~= ops);
                }
            }
        }
    }
}

/// A `LoopEnd` closes the loop of its own `LoopStart`: the marker that the
/// builder pops names the `LoopStart` that pairs with this `LoopEnd`, and
/// the builder goes on in that loop's exit block.
pub proof fn lemma_loop_end_closes_its_loop(ops: Seq<Operator>, i: int)
    requires
        ops.len() <= usize::MAX,
        0 <= i < ops.len(),
        ops[i] == Operator::LoopEnd,
        run_spec(ops.take(i + 1)) is Ok,
    ensures
        run_spec(ops.take(i)) is Ok,
        run_spec(ops.take(i))->Ok_0.stack.len() > 0,
        matching(ops, run_spec(ops.take(i))->Ok_0.stack.last().opened_at as int, i),
        run_spec(ops.take(i + 1))->Ok_0.cursor == run_spec(ops.take(i))->Ok_0.stack.last().exit,
{
    let front = ops.take(i);
    let full = ops.take(i + 1);
    assert(full.drop_last() =~= front);
    assert(full.last() == ops[i]);
    let m = run_spec(front)->Ok_0;
    lemma_markers_enclose(front);
    lemma_stack_depth(front);
    lemma_stack_depth(full);
    let p = m.stack.len() - 1;
    let j = m.stack[p].opened_at as int;
    assert(ops[j] == front[j]);
    assert(ops.take(j) =~= front.take(j));
    assert forall|k: int| j < k <= i implies nesting_depth(#[trigger] ops.take(k)) > nesting_depth(
        ops.take(j),
    ) by {
        assert(ops.take(k) =~= front.take(k));
    }
}

/// The `LoopStart` that a failure reports as unmatched is never closed, and
/// it is the innermost such: the nesting stays above the depth before it to
/// the end of the stream, where it is exactly one above.
pub proof fn lemma_reported_loop_is_open(ops: Seq<Operator>)
    requires
        ops.len() <= usize::MAX,
        build_spec(ops) is Err,
        build_spec(ops)->Err_0 is UnmatchedOpenBracket,
    ensures
        ({
            let index = build_spec(ops)->Err_0->UnmatchedOpenBracket_index as int;
            &&& 0 <= index < ops.len()
            &&& ops[index] == Operator::LoopStart
            &&& nesting_depth(ops.take(index)) == nesting_depth(ops) - 1
            &&& forall|k: int|
                index < k <= ops.len() ==> nesting_depth(#[trigger] ops.take(k)) > nesting_depth(
                    ops.take(index),
                )
        }),
{
    lemma_stack_depth(ops);
    lemma_markers_enclose(ops);
    let m = run_spec(ops)->Ok_0;
    let p = m.stack.len() - 1;
    assert(m.stack[p].opened_at == m.stack.last().opened_at);
}

} // verus!
