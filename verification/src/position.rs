use vstd::prelude::*;
use crate::operator::{Operator, is_operator, is_operator_char, single};
use crate::lexer::filter_spec;
use crate::grouper::{parse_spec, push_char};

verus! {

/// Whether the character at `p` begins the instruction with the given index:
/// the text before it makes `index` instructions, and with it one more.
pub open spec fn starts_instruction(source: Seq<char>, index: int, p: int) -> bool {
    &&& 0 <= p < source.len()
    &&& parse_spec(source.take(p)).len() == index
    &&& parse_spec(source.take(p + 1)).len() == index + 1
}

/// Reading one more character either changes nothing (a comment), or feeds
/// that character to the grouping of what was read before.
pub proof fn lemma_parse_one_more(source: Seq<char>, p: int)
    requires
        0 <= p < source.len(),
    ensures
        !is_operator(source[p]) ==> parse_spec(source.take(p + 1)) == parse_spec(source.take(p)),
        is_operator(source[p]) ==> parse_spec(source.take(p + 1)) == push_char(
            parse_spec(source.take(p)),
            source[p],
        ),
{
    reveal(Seq::filter);
    let front = source.take(p);
    let longer = source.take(p + 1);
    assert(longer.drop_last() =~= front);
    assert(longer.last() == source[p]);
    if is_operator(source[p]) {
        assert(filter_spec(longer) == filter_spec(front).push(source[p]));
        assert(filter_spec(longer).drop_last() =~= filter_spec(front));
    }
}

/// Whether two instructions are of the same operator, whatever their counts.
pub open spec fn same_kind(a: Operator, b: Operator) -> bool {
    match (a, b) {
        (Operator::IncrementBy(_), Operator::IncrementBy(_)) => true,
        (Operator::DecrementBy(_), Operator::DecrementBy(_)) => true,
        _ => a == b,
    }
}

/// Reading on never takes an instruction away nor changes its operator.
pub proof fn lemma_instruction_stays(source: Seq<char>, index: int, shorter: int, longer: int)
    requires
        0 <= shorter <= longer <= source.len(),
        0 <= index < parse_spec(source.take(shorter)).len(),
    ensures
        index < parse_spec(source.take(longer)).len(),
        same_kind(
            parse_spec(source.take(shorter))[index],
            parse_spec(source.take(longer))[index],
        ),
    decreases longer - shorter,
{
    if shorter < longer {
        lemma_instruction_stays(source, index, shorter, longer - 1);
        lemma_parse_one_more(source, longer - 1);
    }
}

/// The character that begins an instruction is the operator of that
/// instruction in the stream of the whole text.
pub proof fn lemma_position_shows_instruction(source: Seq<char>, index: int, p: int)
    requires
        starts_instruction(source, index, p),
    ensures
        is_operator(source[p]),
        index < parse_spec(source).len(),
        same_kind(single(source[p]), parse_spec(source)[index]),
{
    lemma_parse_one_more(source, p);
    lemma_instruction_stays(source, index, p + 1, source.len() as int);
    assert(source.take(source.len() as int) =~= source);
}

/// Finds the character of the source text at which the instruction with the
/// given index begins, so that a failure can be shown where it is. `None`
/// where the text has no such instruction.
pub fn position_of(source: &str, index: usize) -> (r: Option<usize>)
    ensures
        match r {
            Some(p) => starts_instruction(source@, index as int, p as int),
            None => index >= parse_spec(source@).len(),
        },
{
    let length: usize = source.unicode_len();
    let mut count: usize = 0;
    let mut after_plus = false;
    let mut after_minus = false;
    let mut p: usize = 0;
    for c in it: source.chars()
        invariant
            it.seq() == source@,
            length == source@.len(),
            p == it.index(),
            count == parse_spec(source@.take(p as int)).len(),
            count <= index,
            after_plus == (count > 0 && parse_spec(source@.take(p as int)).last() is IncrementBy),
            after_minus == (count > 0 && parse_spec(source@.take(p as int)).last() is DecrementBy),
    {
        proof {
            lemma_parse_one_more(source@, p as int);
        }
        if is_operator_char(c) {
            let merges = (c == '+' && after_plus) || (c == '-' && after_minus);
            if !merges {
                if count == index {
                    return Some(p);
                }
                count = count + 1;
                after_plus = c == '+';
                after_minus = c == '-';
            }
        }
        p = p + 1;
    }
    proof {
        assert(source@.take(source@.len() as int) =~= source@);
    }
    None
}

} // verus!
