use vstd::prelude::*;
use crate::operator::{is_operator, is_operator_char};

verus! {

/// The operator characters of `s`, in the order in which they stand in `s`.
pub open spec fn filter_spec(s: Seq<char>) -> Seq<char> {
    s.filter(|c: char| is_operator(c))
}

/// Whether every character of `s` is an operator.
pub open spec fn all_operators(s: Seq<char>) -> bool {
    forall|i: int| 0 <= i < s.len() ==> is_operator(#[trigger] s[i])
}

/// Filtering leaves only operators, and leaves a text of operators as it is.
pub proof fn lemma_filter_spec(s: Seq<char>)
    ensures
        all_operators(filter_spec(s)),
        filter_spec(s).len() <= s.len(),
        all_operators(s) ==> filter_spec(s) == s,
    decreases s.len(),
{
    reveal(Seq::filter);
    let pred = |c: char| is_operator(c);
    if s.len() > 0 {
        lemma_filter_spec(s.drop_last());
        if all_operators(s) {
            assert(all_operators(s.drop_last())) by {
                assert forall|i: int| 0 <= i < s.drop_last().len() implies is_operator(
                    #[trigger] s.drop_last()[i],
                ) by {
                    assert(s.drop_last()[i] == s[i]);
                }
            }
            assert(is_operator(s[s.len() - 1]));
            assert(s.drop_last().push(s.last()) =~= s);
        }
    } else {
        assert(s.filter(pred) =~= s);
    }
}

/// Strips every character that is not an operator from the source text.
pub fn filter(source: &str) -> (r: Vec<char>)
    ensures
        r@ == filter_spec(source@),
        all_operators(r@),
{
    let mut out: Vec<char> = Vec::new();
    let pred = Ghost(|c: char| is_operator(c));
    for c in it: source.chars()
        invariant
            it.seq() == source@,
            out@ == source@.take(it.index() as int).filter(pred@),
            pred@ == (|c: char| is_operator(c)),
    {
        proof {
            reveal(Seq::filter);
            let i = it.index() as int;
            assert(source@.take(i + 1).drop_last() =~= source@.take(i));
        }
        if is_operator_char(c) {
            out.push(c);
        }
    }
    proof {
        assert(source@.take(source@.len() as int) =~= source@);
        lemma_filter_spec(source@);
    }
    out
}

} // verus!
